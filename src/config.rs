//! Checking engine options and reading them from text.
use vstd::prelude::*;
use crate::joinerator::{GeneratorFrequency, GeneratorOptions, Options, generator_wf};
use crate::text::chars_of;

verus! {

/// A configuration that the engine cannot run with.
#[derive(Clone, Copy, Debug, PartialEq, Eq, Structural)]
pub enum ConfigError {
    /// A percentage outside (0, 1], or a fixed count of zero.
    InvalidFrequency,
    /// A category configured by two generator entries.
    DuplicateCategory,
}

impl<'a> Options<'a> {
    /// Rejects options the engine cannot run with.
    pub fn validate(&self) -> (r: Result<(), ConfigError>)
        ensures
            r is Ok <==> self.wf(),
            r == Err::<(), ConfigError>(ConfigError::InvalidFrequency) <==> exists|k: int|
                0 <= k < self.generator@.len() && !(#[trigger] self.generator@[k]).frequency.wf(),
    {
        validate_generator(&self.generator)
    }
}

/// Rejects generator entries the engine cannot run with: a frequency out of
/// its domain first, then a category that occurs twice.
pub fn validate_generator(gen: &Vec<GeneratorOptions>) -> (r: Result<(), ConfigError>)
    ensures
        r is Ok <==> generator_wf(gen@),
        r == Err::<(), ConfigError>(ConfigError::InvalidFrequency) <==> exists|k: int|
            0 <= k < gen@.len() && !(#[trigger] gen@[k]).frequency.wf(),
{
    let mut k: usize = 0;
    while k < gen.len()
        invariant
            k <= gen@.len(),
            forall|k2: int| 0 <= k2 < k ==> (#[trigger] gen@[k2]).frequency.wf(),
        decreases gen@.len() - k,
    {
        let ok = match gen[k].frequency {
            GeneratorFrequency::Percentage { numerator, denominator } => 0 < numerator
                && numerator <= denominator,
            GeneratorFrequency::Fixed(n) => n > 0,
        };
        if !ok {
            return Err(ConfigError::InvalidFrequency);
        }
        k = k + 1;
    }
    let mut a: usize = 0;
    while a < gen.len()
        invariant
            a <= gen@.len(),
            forall|k2: int| 0 <= k2 < gen@.len() ==> (#[trigger] gen@[k2]).frequency.wf(),
            forall|x: int, y: int|
                0 <= x < a && 0 <= y < gen@.len() && x != y ==> (#[trigger] gen@[x]).category
                    != (#[trigger] gen@[y]).category,
        decreases gen@.len() - a,
    {
        let mut b: usize = 0;
        while b < gen.len()
            invariant
                a < gen@.len(),
                b <= gen@.len(),
                forall|k2: int| 0 <= k2 < gen@.len() ==> (#[trigger] gen@[k2]).frequency.wf(),
                forall|x: int, y: int|
                    0 <= x < a && 0 <= y < gen@.len() && x != y ==> (#[trigger] gen@[x]).category
                        != (#[trigger] gen@[y]).category,
                forall|y: int| 0 <= y < b && y != a ==> gen@[a as int].category != (
                #[trigger] gen@[y]).category,
            decreases gen@.len() - b,
        {
            if a != b && gen[a].category == gen[b].category {
                proof {
                    assert(!generator_wf(gen@)) by {
                        assert(gen@[a as int].category == gen@[b as int].category);
                    }
                }
                return Err(ConfigError::DuplicateCategory);
            }
            b = b + 1;
        }
        a = a + 1;
    }
    Ok(())
}

/// `c` is one of the ASCII digits.
pub open spec fn is_digit(c: char) -> bool {
    '0' <= c && c <= '9'
}

/// The value of the ASCII digit `c`.
pub open spec fn digit_value(c: char) -> nat {
    (c as u32 - '0' as u32) as nat
}

/// Every character of `s` is a digit.
pub open spec fn all_digits(s: Seq<char>) -> bool {
    forall|i: int| 0 <= i < s.len() ==> is_digit(#[trigger] s[i])
}

/// The number that the digits `s` spell in base ten.
pub open spec fn digits_value(s: Seq<char>) -> nat
    decreases s.len(),
{
    if s.len() == 0 {
        0
    } else {
        digits_value(s.drop_last()) * 10 + digit_value(s.last())
    }
}

/// `s` without a leading `+`, if it has one.
pub open spec fn unsigned_part(s: Seq<char>) -> Seq<char> {
    if s.len() > 0 && s[0] == '+' {
        s.subrange(1, s.len() as int)
    } else {
        s
    }
}

/// The non-negative integer written in `s` (digits after an optional `+`),
/// when there is one and it fits in a `usize`.
pub open spec fn decimal_usize(s: Seq<char>) -> Option<usize> {
    let d = unsigned_part(s);
    if d.len() > 0 && all_digits(d) && digits_value(d) <= usize::MAX {
        Some(digits_value(d) as usize)
    } else {
        None
    }
}

proof fn lemma_digits_value_grows(s: Seq<char>, t: int)
    requires
        all_digits(s),
        0 <= t <= s.len(),
    ensures
        digits_value(s.subrange(0, t)) <= digits_value(s),
    decreases s.len() - t,
{
    if t < s.len() {
        lemma_digits_value_grows(s, t + 1);
        assert(s.subrange(0, t + 1).drop_last() =~= s.subrange(0, t));
    } else {
        assert(s.subrange(0, t) =~= s);
    }
}

/// The value of the digits `d[from..to]`, or `None` when one is not a digit,
/// there are none, or the value is above `max`.
fn digits_up_to(d: &Vec<char>, from: usize, to: usize, max: u64) -> (r: Option<u64>)
    requires
        from <= to <= d@.len(),
    ensures
        ({
            let s = d@.subrange(from as int, to as int);
            r == if s.len() > 0 && all_digits(s) && digits_value(s) <= max {
                Some(digits_value(s) as u64)
            } else {
                None::<u64>
            }
        }),
{
    let ghost s = d@.subrange(from as int, to as int);
    if from == to {
        return None;
    }
    let mut value: u64 = 0;
    let mut i: usize = from;
    while i < to
        invariant
            from <= i <= to,
            to <= d@.len(),
            s == d@.subrange(from as int, to as int),
            all_digits(s.subrange(0, i - from)),
            value == digits_value(s.subrange(0, i - from)),
            value <= max,
        decreases to - i,
    {
        let c = d[i];
        proof {
            assert(s.subrange(0, i - from + 1).drop_last() =~= s.subrange(0, i - from));
            assert(s[i - from] == c);
        }
        if !('0' <= c && c <= '9') {
            proof {
                assert(!all_digits(s)) by {
                    assert(!is_digit(s[i - from]));
                }
            }
            return None;
        }
        let digit = (c as u32 - '0' as u32) as u64;
        if digit > max || value > (max - digit) / 10 {
            proof {
                assert(all_digits(s.subrange(0, i - from + 1)));
                assert(digits_value(s.subrange(0, i - from + 1)) == value * 10 + digit);
                if digit <= max {
                    assert(value * 10 + digit > max) by (nonlinear_arith)
                        requires
                            value > (max - digit) / 10,
                            digit <= max,
                    ;
                }
                if all_digits(s) {
                    lemma_digits_value_grows(s, i - from + 1);
                }
            }
            return None;
        }
        proof {
            assert(value * 10 + digit <= max) by (nonlinear_arith)
                requires
                    value <= (max - digit) / 10,
                    digit <= max,
            ;
        }
        value = value * 10 + digit;
        i = i + 1;
    }
    proof {
        assert(s.subrange(0, i - from) =~= s);
    }
    Some(value)
}

/// Ten to the power `e`.
pub open spec fn pow10(e: nat) -> nat
    decreases e,
{
    if e == 0 {
        1
    } else {
        10 * pow10((e - 1) as nat)
    }
}

/// The index of the first `.` in `d`, or its length when there is none.
pub open spec fn first_dot(d: Seq<char>) -> nat
    decreases d.len(),
{
    if d.len() == 0 {
        0
    } else if d[0] == '.' {
        0
    } else {
        1 + first_dot(d.drop_first())
    }
}

/// The most digits a percentage may have after its decimal point.
pub const MAX_FRACTION_DIGITS: usize = 16;

/// The percentage written in `d` (digits, optionally a `.` and more digits,
/// at least one digit in all), as a fraction of one, when it lies in (0, 100].
pub open spec fn percentage_of(d: Seq<char>) -> Option<GeneratorFrequency> {
    let dot = first_dot(d) as int;
    let whole = d.subrange(0, dot);
    let fraction = if dot < d.len() {
        d.subrange(dot + 1, d.len() as int)
    } else {
        Seq::empty()
    };
    let numerator = digits_value(whole) * pow10(fraction.len()) + digits_value(fraction);
    let denominator = 100 * pow10(fraction.len());
    if all_digits(whole) && all_digits(fraction) && whole.len() + fraction.len() > 0
        && fraction.len() <= MAX_FRACTION_DIGITS && 0 < numerator <= denominator {
        Some(
            GeneratorFrequency::Percentage {
                numerator: numerator as u64,
                denominator: denominator as u64,
            },
        )
    } else {
        None
    }
}

/// The frequency written in `s`: a percentage such as `60%` or `12.5%`, or a
/// positive count such as `3`.
pub open spec fn frequency_of(s: Seq<char>) -> Option<GeneratorFrequency> {
    if s.len() > 0 && s.last() == '%' {
        percentage_of(unsigned_part(s.drop_last()))
    } else {
        match decimal_usize(s) {
            Some(v) => if v > 0 {
                Some(GeneratorFrequency::Fixed(v))
            } else {
                None
            },
            None => None,
        }
    }
}

proof fn lemma_first_dot(d: Seq<char>, i: int)
    requires
        0 <= i <= d.len(),
        forall|j: int| 0 <= j < i ==> d[j] != '.',
        i == d.len() || d[i] == '.',
    ensures
        first_dot(d) == i,
    decreases i,
{
    if i > 0 {
        lemma_first_dot(d.drop_first(), i - 1);
    }
}

proof fn lemma_pow10_positive(e: nat)
    ensures
        pow10(e) >= 1,
    decreases e,
{
    if e > 0 {
        lemma_pow10_positive((e - 1) as nat);
    }
}

proof fn lemma_pow10_monotone(a: nat, b: nat)
    requires
        a <= b,
    ensures
        pow10(a) <= pow10(b),
    decreases b,
{
    if a < b {
        lemma_pow10_monotone(a, (b - 1) as nat);
        lemma_pow10_positive((b - 1) as nat);
    }
}

proof fn lemma_pow10_bound(e: nat)
    requires
        e <= 16,
    ensures
        1 <= pow10(e) <= 10_000_000_000_000_000,
{
    lemma_pow10_positive(e);
    lemma_pow10_monotone(e, 16);
    reveal_with_fuel(pow10, 17);
}

proof fn lemma_digits_value_below(s: Seq<char>)
    requires
        all_digits(s),
    ensures
        digits_value(s) < pow10(s.len()),
    decreases s.len(),
{
    if s.len() > 0 {
        let rest = s.drop_last();
        assert(all_digits(rest)) by {
            assert forall|i: int| 0 <= i < rest.len() implies is_digit(#[trigger] rest[i]) by {
                assert(is_digit(s[i]));
            }
        }
        lemma_digits_value_below(rest);
        assert(is_digit(s[s.len() - 1]));
        let v = digits_value(rest);
        let p = pow10(rest.len());
        assert(v * 10 + digit_value(s.last()) < 10 * p) by (nonlinear_arith)
            requires
                v < p,
                digit_value(s.last()) <= 9,
        ;
    }
}

/// The percentage written in `d[from..to]`, as `percentage_of` reads it.
fn percentage_in(d: &Vec<char>, from: usize, to: usize) -> (r: Option<GeneratorFrequency>)
    requires
        from <= to <= d@.len(),
    ensures
        r == percentage_of(d@.subrange(from as int, to as int)),
{
    let ghost body = d@.subrange(from as int, to as int);
    // Find the decimal point.
    let mut dot: usize = from;
    while dot < to && d[dot] != '.'
        invariant
            from <= dot <= to,
            to <= d@.len(),
            body == d@.subrange(from as int, to as int),
            forall|j: int| 0 <= j < dot - from ==> body[j] != '.',
        decreases to - dot,
    {
        dot = dot + 1;
    }
    proof {
        lemma_first_dot(body, dot - from);
    }
    let frac_from = if dot < to {
        dot + 1
    } else {
        to
    };
    let ghost whole_text = body.subrange(0, dot - from);
    let ghost frac_text = if dot < to {
        body.subrange(dot - from + 1, body.len() as int)
    } else {
        Seq::<char>::empty()
    };
    proof {
        assert(whole_text =~= d@.subrange(from as int, dot as int));
        assert(frac_text =~= d@.subrange(frac_from as int, to as int));
    }
    if to - frac_from > MAX_FRACTION_DIGITS {
        return None;
    }
    let fraction: u64 = if frac_from == to {
        0
    } else {
        match digits_up_to(d, frac_from, to, u64::MAX) {
            Some(v) => v,
            None => {
                proof {
                    if all_digits(frac_text) {
                        lemma_digits_value_below(frac_text);
                        lemma_pow10_bound(frac_text.len());
                    }
                }
                return None;
            },
        }
    };
    let whole: u64 = if dot == from {
        0
    } else {
        match digits_up_to(d, from, dot, 100) {
            Some(v) => v,
            None => {
                proof {
                    lemma_pow10_positive(frac_text.len());
                    if all_digits(whole_text) {
                        let p = pow10(frac_text.len());
                        assert(digits_value(whole_text) * p + digits_value(frac_text) > 100 * p)
                            by (nonlinear_arith)
                            requires
                                digits_value(whole_text) > 100,
                                p >= 1,
                        ;
                    }
                }
                return None;
            },
        }
    };
    if dot == from && frac_from == to {
        return None;
    }
    let mut scale: u64 = 1;
    let mut e: usize = 0;
    while e < to - frac_from
        invariant
            e <= to - frac_from <= MAX_FRACTION_DIGITS,
            scale == pow10(e as nat),
        decreases to - frac_from - e,
    {
        proof {
            lemma_pow10_bound(e as nat);
        }
        scale = scale * 10;
        e = e + 1;
    }
    proof {
        lemma_pow10_bound(e as nat);
        assert(whole * scale <= 100 * 10_000_000_000_000_000) by (nonlinear_arith)
            requires
                whole <= 100,
                scale <= 10_000_000_000_000_000,
        ;
        if frac_from < to {
            lemma_digits_value_below(frac_text);
        }
        assert(whole_text.len() == 0 ==> digits_value(whole_text) == 0);
        assert(frac_text.len() == 0 ==> digits_value(frac_text) == 0);
    }
    let numerator = whole * scale + fraction;
    let denominator = 100 * scale;
    if numerator == 0 || numerator > denominator {
        return None;
    }
    Some(GeneratorFrequency::Percentage { numerator, denominator })
}

/// The start of `d` after an optional `+`.
fn unsigned_start(d: &Vec<char>, to: usize) -> (r: usize)
    requires
        to <= d@.len(),
    ensures
        r <= to,
        d@.subrange(r as int, to as int) == unsigned_part(d@.subrange(0, to as int)),
{
    if to > 0 && d[0] == '+' {
        proof {
            assert(d@.subrange(1, to as int) =~= d@.subrange(0, to as int).subrange(1, to as int));
        }
        1
    } else {
        proof {
            assert(d@.subrange(0, to as int) =~= d@.subrange(0, to as int));
        }
        0
    }
}

/// Reads a stacking depth: a non-negative integer.
pub fn parse_stacking(text: &str) -> (r: Option<usize>)
    ensures
        r == decimal_usize(text@),
{
    let d = chars_of(text);
    let from = unsigned_start(&d, d.len());
    proof {
        assert(d@.subrange(0, d@.len() as int) =~= text@);
    }
    match digits_up_to(&d, from, d.len(), usize::MAX as u64) {
        Some(v) => Some(v as usize),
        None => None,
    }
}

/// Reads a frequency: a percentage in (0, 100] such as `60%` or `12.5%`, or a
/// positive count such as `3`.
pub fn parse_frequency(text: &str) -> (r: Option<GeneratorFrequency>)
    ensures
        r == frequency_of(text@),
{
    let d = chars_of(text);
    let len = d.len();
    if len > 0 && d[len - 1] == '%' {
        let to = len - 1;
        let from = unsigned_start(&d, to);
        proof {
            assert(d@.subrange(0, to as int) =~= text@.drop_last());
        }
        percentage_in(&d, from, to)
    } else {
        let from = unsigned_start(&d, len);
        proof {
            assert(d@.subrange(0, len as int) =~= text@);
        }
        match digits_up_to(&d, from, len, usize::MAX as u64) {
            Some(v) => if v > 0 {
                Some(GeneratorFrequency::Fixed(v as usize))
            } else {
                None
            },
            None => None,
        }
    }
}

} // verus!
