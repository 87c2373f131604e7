//! Human-readable byte sizes: a number and a unit, such as "100MB" or "1.5 GB".
//!
//! The number may have a sign, a fraction and an exponent, or be infinite or not
//! a number at all; the size is rounded down to whole bytes and kept within what
//! a `usize` holds.

use crate::text::{self, chars_of, is_letter, is_word, trim_str, Text};
use vstd::arithmetic::div_mod;
use vstd::prelude::*;

verus! {

/// Ten to the power of `n`.
pub open spec fn pow10(n: nat) -> nat
    decreases n,
{
    if n == 0 {
        1
    } else {
        10 * pow10((n - 1) as nat)
    }
}

/// Whether a character is a decimal digit.
pub open spec fn is_digit(c: char) -> bool {
    '0' <= c && c <= '9'
}

/// The number that a digit stands for.
pub open spec fn digit_value(c: char) -> nat {
    (c as u32 - 48) as nat
}

/// Whether a text holds nothing but digits.
pub open spec fn all_digits(s: Text) -> bool {
    forall|i: int| 0 <= i < s.len() ==> is_digit(#[trigger] s[i])
}

/// The number that some digits stand for.
pub open spec fn value_of(s: Text) -> nat
    decreases s.len(),
{
    if s.len() == 0 {
        0
    } else {
        10 * value_of(s.drop_last()) + digit_value(s.last())
    }
}

/// A text without a leading sign, and whether that was a minus.
pub open spec fn unsigned(s: Text) -> (bool, Text) {
    if s.len() > 0 && (s[0] == '-' || s[0] == '+') {
        (s[0] == '-', s.drop_first())
    } else {
        (false, s)
    }
}

/// The leading digits of a text.
pub open spec fn leading_digits(s: Text) -> Text
    decreases s.len(),
{
    if s.len() > 0 && is_digit(s[0]) {
        seq![s[0]] + leading_digits(s.drop_first())
    } else {
        Seq::empty()
    }
}

/// A number as it is written.
pub enum Number {
    /// Beyond all numbers.
    Infinite { negative: bool },
    /// Not a number.
    NotANumber,
    /// Digits, of which the last `fraction` stand behind the point, and a power
    /// of ten to multiply them by.
    Finite { negative: bool, digits: Text, fraction: nat, exponent: int },
}

/// The exponent that a text writes, if it writes one: nothing at all, or an `e`
/// with a whole number.
pub open spec fn exponent_of(s: Text) -> Option<int> {
    if s.len() == 0 {
        Some(0)
    } else if text::same_letter(s[0], 'e') {
        let (negative, digits) = unsigned(s.drop_first());
        if digits.len() > 0 && all_digits(digits) {
            Some(
                if negative {
                    -(value_of(digits) as int)
                } else {
                    value_of(digits) as int
                },
            )
        } else {
            None
        }
    } else {
        None
    }
}

/// The number that a text writes, if it writes one.
pub open spec fn number_of(s: Text) -> Option<Number> {
    let (negative, body) = unsigned(s);
    if text::same_word(body, "inf"@) || text::same_word(body, "infinity"@) {
        Some(Number::Infinite { negative })
    } else if text::same_word(body, "nan"@) {
        Some(Number::NotANumber)
    } else {
        let whole = leading_digits(body);
        let rest = body.skip(whole.len() as int);
        let pointed = rest.len() > 0 && rest[0] == '.';
        let fraction = if pointed {
            leading_digits(rest.drop_first())
        } else {
            Seq::empty()
        };
        let tail = if pointed {
            rest.skip(1 + fraction.len() as int)
        } else {
            rest
        };
        if whole.len() + fraction.len() == 0 {
            None
        } else {
            match exponent_of(tail) {
                Some(exponent) => Some(
                    Number::Finite {
                        negative,
                        digits: whole + fraction,
                        fraction: fraction.len(),
                        exponent,
                    },
                ),
                None => None,
            }
        }
    }
}

/// Digits times a power of ten and a unit, rounded down.
pub open spec fn scaled(digits: Text, power: int, unit: nat) -> nat {
    if power >= 0 {
        value_of(digits) * pow10(power as nat) * unit
    } else {
        value_of(digits) * unit as nat / pow10((-power) as nat)
    }
}

/// A number of units in whole bytes, as far as a `usize` holds them. There are
/// no negative sizes: they count as none, as does what is not a number.
pub open spec fn bytes_of(number: Number, unit: nat) -> int {
    match number {
        Number::NotANumber => 0,
        Number::Infinite { negative } => if negative {
            0
        } else {
            usize::MAX as int
        },
        Number::Finite { negative, digits, fraction, exponent } => {
            let size = scaled(digits, exponent - fraction, unit);
            if negative {
                0
            } else if size > usize::MAX {
                usize::MAX as int
            } else {
                size as int
            }
        },
    }
}

/// What stands before the unit, and the unit in bytes, if there is a unit.
pub open spec fn split_unit(s: Text) -> Option<(Text, nat)> {
    if s.len() > 0 && text::same_letter(s.last(), 'b') {
        let t = s.drop_last();
        if t.len() > 0 && text::same_letter(t.last(), 'g') {
            Some((t.drop_last(), 1_073_741_824))
        } else if t.len() > 0 && text::same_letter(t.last(), 'm') {
            Some((t.drop_last(), 1_048_576))
        } else if t.len() > 0 && text::same_letter(t.last(), 'k') {
            Some((t.drop_last(), 1024))
        } else {
            Some((t, 1))
        }
    } else {
        None
    }
}

/// The plain number of bytes that a text writes, if it does and a `usize` holds
/// it.
pub open spec fn plain_size(s: Text) -> Option<int> {
    let digits = if s.len() > 0 && s[0] == '+' {
        s.drop_first()
    } else {
        s
    };
    if digits.len() > 0 && all_digits(digits) && value_of(digits) <= usize::MAX {
        Some(value_of(digits) as int)
    } else {
        None
    }
}

/// The size that a text writes, if it writes one: a plain number of bytes, or a
/// number and a unit.
pub open spec fn byte_size(s: Text) -> Option<int> {
    let t = text::trim(s);
    if plain_size(t) is Some {
        plain_size(t)
    } else {
        match split_unit(t) {
            None => None,
            Some((number, unit)) => match number_of(text::trim(number)) {
                Some(n) => Some(bytes_of(n, unit)),
                None => None,
            },
        }
    }
}

proof fn lemma_pow10_pos(n: nat)
    ensures
        pow10(n) >= 1,
    decreases n,
{
    if n > 0 {
        lemma_pow10_pos((n - 1) as nat);
    }
}

proof fn lemma_pow10_ordered(a: nat, b: nat)
    requires
        a <= b,
    ensures
        pow10(a) <= pow10(b),
    decreases b,
{
    if a < b {
        lemma_pow10_ordered(a, (b - 1) as nat);
        lemma_pow10_pos((b - 1) as nat);
    }
}

/// More than a `usize` or a unit ever is.
proof fn lemma_pow10_large()
    ensures
        pow10(10) == 10_000_000_000,
        pow10(20) > u64::MAX,
        pow10(20) > usize::MAX,
{
    reveal_with_fuel(pow10, 21);
}

/// Digits stand for less than the power of ten of their number.
proof fn lemma_value_bound(s: Text)
    requires
        all_digits(s),
    ensures
        value_of(s) < pow10(s.len()),
    decreases s.len(),
{
    if s.len() > 0 {
        let short = s.drop_last();
        assert forall|i: int| 0 <= i < short.len() implies is_digit(#[trigger] short[i]) by {
            assert(is_digit(s[i]));
        }
        lemma_value_bound(short);
        assert(is_digit(s[s.len() - 1]));
    }
}

/// Digits split in two: the first ones count by the power of ten of the number
/// of the last ones.
proof fn lemma_value_split(s: Text, cut: int)
    requires
        0 <= cut <= s.len(),
    ensures
        value_of(s) == value_of(s.take(cut)) * pow10((s.len() - cut) as nat) + value_of(
            s.skip(cut),
        ),
    decreases s.len(),
{
    if cut == s.len() {
        assert(s.take(cut) =~= s);
        assert(s.skip(cut) =~= Seq::empty());
        assert(value_of(s.take(cut)) * 1 == value_of(s.take(cut)));
    } else {
        let short = s.drop_last();
        lemma_value_split(short, cut);
        assert(short.take(cut) =~= s.take(cut));
        assert(s.skip(cut).drop_last() =~= short.skip(cut));
        let hi = value_of(s.take(cut)) as int;
        let p = pow10((short.len() - cut) as nat) as int;
        assert(pow10((s.len() - cut) as nat) == 10 * p);
        assert(10 * (hi * p) == hi * (10 * p)) by (nonlinear_arith);
    }
}

/// One more digit in front: how what is carried over changes.
proof fn lemma_carry_step(digit: nat, v: nat, unit: nat, j: nat)
    ensures
        (digit * pow10(j) + v) * unit as nat / pow10(j + 1) == (digit * unit + v * unit as nat / pow10(j)) / 10,
{
    let p = pow10(j) as int;
    lemma_pow10_pos(j);
    let d = digit as int;
    let u = unit as int;
    let x = v as int * u;
    assert(pow10(j + 1) == 10 * p);
    assert((d * p + v) * u == p * (d * u) + x) by (nonlinear_arith)
        requires
            x == v as int * u,
    ;
    div_mod::lemma_div_denominator(p * (d * u) + x, p, 10);
    assert(p * 10 == 10 * p);
    let q = x / p;
    let r = x % p;
    assert(x == p * q + r && 0 <= r < p) by {
        div_mod::lemma_fundamental_div_mod(x, p);
        div_mod::lemma_mod_bound(x, p);
    }
    assert(p * (d * u) + x == p * (d * u + q) + r) by (nonlinear_arith)
        requires
            x == p * q + r,
    ;
    div_mod::lemma_div_multiples_vanish_fancy(d * u + q, r, p);
}

/// The number that some digits stand for, kept within a bound.
fn value_within(chars: &Vec<char>, n: usize, bound: u128) -> (r: u128)
    requires
        n <= chars@.len(),
        all_digits(chars@),
        bound <= 1_000_000_000_000_000_000_000_000_000_000,
    ensures
        r == if value_of(chars@.take(n as int)) < bound {
            value_of(chars@.take(n as int)) as int
        } else {
            bound as int
        },
{
    let mut acc: u128 = 0;
    let mut i: usize = 0;
    assert(chars@.take(0) =~= Seq::empty());
    while i < n
        invariant
            0 <= i <= n <= chars@.len(),
            all_digits(chars@),
            bound <= 1_000_000_000_000_000_000_000_000_000_000,
            acc == if value_of(chars@.take(i as int)) < bound {
                value_of(chars@.take(i as int)) as int
            } else {
                bound as int
            },
        decreases n - i,
    {
        proof {
            assert(chars@.take(i + 1).drop_last() =~= chars@.take(i as int));
            assert(chars@.take(i + 1).last() == chars@[i as int]);
            assert(is_digit(chars@[i as int]));
        }
        let d: u128 = (chars[i] as u32 - 48) as u128;
        let next: u128 = acc * 10 + d;
        acc = if next < bound {
            next
        } else {
            bound
        };
        i = i + 1;
    }
    acc
}

/// More than a `usize` holds.
pub const TOO_MANY: u128 = 0x1_0000_0000_0000_0000;

/// A power of ten beyond which only zero stays small, and only zero stays large
/// below it.
pub const FAR: i128 = 1_000_000_000_000_000_000_000_000_000_000;

/// Digits times a unit divided by ten once for each of them, rounded down.
fn carry_of(chars: &Vec<char>, from: usize, unit: u64) -> (r: u64)
    requires
        from <= chars@.len(),
        all_digits(chars@),
        1 <= unit <= 1_073_741_824,
    ensures
        r == value_of(chars@.skip(from as int)) * unit as nat / pow10((chars@.len() - from) as nat),
        r < unit,
{
    let mut carry: u64 = 0;
    let mut i: usize = chars.len();
    proof {
        assert(chars@.skip(i as int) =~= Seq::empty());
        assert(value_of(chars@.skip(i as int)) * unit == 0) by (nonlinear_arith)
            requires
                value_of(chars@.skip(i as int)) == 0,
        ;
    }
    while i > from
        invariant
            from <= i <= chars@.len(),
            all_digits(chars@),
            1 <= unit <= 1_073_741_824,
            carry == value_of(chars@.skip(i as int)) * unit as nat / pow10((chars@.len() - i) as nat),
            carry < unit,
        decreases i,
    {
        let ghost tail = chars@.skip(i as int);
        let ghost longer = chars@.skip(i - 1);
        let ghost j = (chars@.len() - i) as nat;
        proof {
            assert(is_digit(chars@[i - 1]));
            lemma_value_split(longer, 1);
            assert(longer.take(1).drop_last() =~= Seq::empty());
            assert(longer.take(1).last() == chars@[i - 1]);
            assert(longer.skip(1) =~= tail);
            assert(value_of(longer.take(1).drop_last()) == 0);
            assert(value_of(longer.take(1)) == digit_value(chars@[i - 1]));
            assert(value_of(longer) == digit_value(chars@[i - 1]) * pow10(j) + value_of(tail));
            lemma_carry_step(digit_value(chars@[i - 1]), value_of(tail), unit as nat, j);
        }
        let d: u64 = (chars[i - 1] as u32 - 48) as u64;
        assert(d * unit <= 9 * unit) by (nonlinear_arith)
            requires
                d <= 9,
        ;
        carry = (d * unit + carry) / 10;
        i = i - 1;
    }
    carry
}

/// Digits times a power of ten and a unit, rounded down and kept within a
/// `usize`.
fn scale(chars: &Vec<char>, power: i128, unit: u64) -> (r: usize)
    requires
        all_digits(chars@),
        1 <= unit <= 1_073_741_824,
        -FAR - usize::MAX <= power <= FAR,
    ensures
        r == if scaled(chars@, power as int, unit as nat) > usize::MAX {
            usize::MAX as int
        } else {
            scaled(chars@, power as int, unit as nat) as int
        },
{
    let n = chars.len();
    assert(chars@.take(n as int) =~= chars@);
    if power >= 0 {
        scale_up(chars, power as u128, unit)
    } else {
        let down: u128 = (-power) as u128;
        if down <= n as u128 {
            let cut: usize = n - down as usize;
            let whole = value_within(chars, cut, TOO_MANY);
            let carry = carry_of(chars, cut, unit);
            proof {
                lemma_value_split(chars@, cut as int);
                let hi = value_of(chars@.take(cut as int)) as int;
                let lo = value_of(chars@.skip(cut as int)) as int;
                let p = pow10(down as nat) as int;
                let u = unit as int;
                lemma_pow10_pos(down as nat);
                assert((hi * p + lo) * u == p * (hi * u) + lo * u) by (nonlinear_arith);
                let x = lo * u;
                assert(x >= 0) by (nonlinear_arith)
                    requires
                        x == lo * u,
                        lo >= 0,
                        u >= 0,
                ;
                div_mod::lemma_fundamental_div_mod(x, p);
                div_mod::lemma_mod_bound(x, p);
                let q = x / p;
                let m = x % p;
                assert(p * (hi * u) + x == p * (hi * u + q) + m) by (nonlinear_arith)
                    requires
                        x == p * q + m,
                ;
                div_mod::lemma_div_multiples_vanish_fancy(hi * u + q, m, p);
                assert(scaled(chars@, power as int, unit as nat) == hi * u + carry);
                assert(whole as int * u <= hi * u) by (nonlinear_arith)
                    requires
                        whole <= hi,
                        u >= 0,
                ;
                assert(whole as int * u <= 0x1_0000_0000_0000_0000 * 1_073_741_824)
                    by (nonlinear_arith)
                    requires
                        0 <= whole <= 0x1_0000_0000_0000_0000,
                        0 <= u <= 1_073_741_824,
                ;
                assert(whole as int * u >= whole) by (nonlinear_arith)
                    requires
                        whole >= 0,
                        u >= 1,
                ;
            }
            let size: u128 = whole * unit as u128 + carry as u128;
            if size > usize::MAX as u128 {
                usize::MAX
            } else {
                size as usize
            }
        } else {
            let carry = carry_of(chars, 0, unit);
            assert(chars@.skip(0) =~= chars@);
            scale_down(chars, carry, down - n as u128, down, unit)
        }
    }
}

fn scale_down(chars: &Vec<char>, carry: u64, steps: u128, down: u128, unit: u64) -> (r: usize)
    requires
        all_digits(chars@),
        1 <= unit <= 1_073_741_824,
        carry < unit,
        down == chars@.len() + steps,
        carry == value_of(chars@) * unit as nat / pow10(chars@.len()),
    ensures
        r == value_of(chars@) * unit as nat / pow10(down as nat),
{
    let ghost x = (value_of(chars@) * unit) as int;
    let ghost n = chars@.len();
    let mut left: u64 = carry;
    let mut i: u128 = 0;
    assert(x >= 0) by (nonlinear_arith)
        requires
            x == value_of(chars@) * unit,
            unit >= 0,
    ;
    while i < steps && left > 0
        invariant
            0 <= i <= steps,
            x >= 0,
            n == chars@.len(),
            left == x / (pow10((n + i) as nat) as int),
            left < 1_073_741_824,
        decreases steps - i,
    {
        proof {
            lemma_pow10_pos((n + i) as nat);
            let p = pow10((n + i) as nat) as int;
            div_mod::lemma_div_denominator(x, p, 10);
            assert(pow10((n + i + 1) as nat) == 10 * p);
            assert(p * 10 == 10 * p);
        }
        left = left / 10;
        i = i + 1;
    }
    proof {
        if i < steps {
            let p = pow10((n + i) as nat) as int;
            let q = pow10((n + steps) as nat) as int;
            lemma_pow10_pos((n + i) as nat);
            lemma_pow10_ordered((n + i) as nat, (n + steps) as nat);
            div_mod::lemma_div_is_ordered_by_denominator(x, p, q);
            div_mod::lemma_div_pos_is_pos(x, q);
        }
    }
    left as usize
}

fn scale_up(chars: &Vec<char>, power: u128, unit: u64) -> (r: usize)
    requires
        all_digits(chars@),
        1 <= unit <= 1_073_741_824,
    ensures
        r == if scaled(chars@, power as int, unit as nat) > usize::MAX {
            usize::MAX as int
        } else {
            scaled(chars@, power as int, unit as nat) as int
        },
{
    let n = chars.len();
    let ghost v = value_of(chars@) as int;
    assert(chars@.take(n as int) =~= chars@);
    let mut acc: u128 = value_within(chars, n, TOO_MANY);
    let mut i: u128 = 0;
    assert(v * 1 == v);
    while i < power && acc > 0 && acc < TOO_MANY
        invariant
            0 <= i <= power,
            v >= 0,
            acc <= TOO_MANY,
            acc == if v * pow10(i as nat) < TOO_MANY {
                v * pow10(i as nat)
            } else {
                TOO_MANY as int
            },
        decreases power - i,
    {
        proof {
            let p = pow10(i as nat) as int;
            assert(pow10((i + 1) as nat) == 10 * p);
            assert(v * (10 * p) == 10 * (v * p)) by (nonlinear_arith);
        }
        let next: u128 = acc * 10;
        acc = if next < TOO_MANY {
            next
        } else {
            TOO_MANY
        };
        i = i + 1;
    }
    proof {
        let p = pow10(i as nat) as int;
        let q = pow10(power as nat) as int;
        lemma_pow10_pos(i as nat);
        lemma_pow10_ordered(i as nat, power as nat);
        assert(v * p <= v * q) by (nonlinear_arith)
            requires
                v >= 0,
                p <= q,
        ;
        if acc == 0 {
            assert(v == 0) by (nonlinear_arith)
                requires
                    v * p == 0,
                    p >= 1,
            ;
            assert(v * q == 0) by (nonlinear_arith)
                requires
                    v == 0,
            ;
        }
        assert(acc == if v * q < TOO_MANY {
            v * q
        } else {
            TOO_MANY as int
        });
        let u = unit as int;
        let w = v * q;
        assert(w * u >= w) by (nonlinear_arith)
            requires
                w >= 0,
                u >= 1,
        ;
        assert(acc as int * u <= 0x1_0000_0000_0000_0000 * 1_073_741_824) by (nonlinear_arith)
            requires
                0 <= acc <= 0x1_0000_0000_0000_0000,
                0 <= u <= 1_073_741_824,
        ;
        assert(acc as int * u >= acc) by (nonlinear_arith)
            requires
                acc >= 0,
                u >= 1,
        ;
    }
    let size: u128 = acc * unit as u128;
    if size > usize::MAX as u128 {
        usize::MAX
    } else {
        size as usize
    }
}

proof fn lemma_far_up(digits: Text, power: int, unit: nat)
    requires
        value_of(digits) > 0,
        power >= 20,
        unit >= 1,
    ensures
        scaled(digits, power, unit) > usize::MAX,
{
    lemma_pow10_large();
    lemma_pow10_ordered(20, power as nat);
    let v = value_of(digits) as int;
    let p = pow10(power as nat) as int;
    let u = unit as int;
    assert(v * p >= p) by (nonlinear_arith)
        requires
            v >= 1,
            p >= 0,
    ;
    assert((v * p) * u >= v * p) by (nonlinear_arith)
        requires
            v * p >= 0,
            u >= 1,
    ;
}

proof fn lemma_far_down(digits: Text, power: int, unit: nat)
    requires
        all_digits(digits),
        -power >= digits.len() + 10,
        unit <= 1_073_741_824,
    ensures
        scaled(digits, power, unit) == 0,
{
    lemma_value_bound(digits);
    lemma_pow10_large();
    let down = (-power) as nat;
    lemma_pow10_ordered(digits.len() + 10, down);
    lemma_pow10_add(digits.len(), 10);
    let v = value_of(digits) as int;
    let p = pow10(digits.len()) as int;
    let u = unit as int;
    assert(v * u < p * 10_000_000_000) by (nonlinear_arith)
        requires
            0 <= v < p,
            0 <= u <= 1_073_741_824,
    ;
    assert(v * u >= 0) by (nonlinear_arith)
        requires
            0 <= v,
            0 <= u,
    ;
    div_mod::lemma_basic_div(v * u, pow10(down) as int);
}

proof fn lemma_pow10_add(a: nat, b: nat)
    ensures
        pow10(a + b) == pow10(a) * pow10(b),
    decreases b,
{
    if b > 0 {
        lemma_pow10_add(a, (b - 1) as nat);
        let p = pow10(a) as int;
        let q = pow10((b - 1) as nat) as int;
        assert(10 * (p * q) == p * (10 * q)) by (nonlinear_arith);
    } else {
        assert(pow10(a) * 1 == pow10(a));
    }
}

fn is_decimal_digit(c: char) -> (r: bool)
    ensures
        r == is_digit(c),
{
    '0' <= c && c <= '9'
}

proof fn lemma_leading_digits(s: Text, n: int)
    requires
        0 <= n <= s.len(),
        forall|i: int| 0 <= i < n ==> is_digit(#[trigger] s[i]),
        n < s.len() ==> !is_digit(s[n]),
    ensures
        leading_digits(s) == s.take(n),
    decreases s.len(),
{
    if n == 0 {
        assert(s.take(0) =~= Seq::empty());
    } else {
        assert(is_digit(s[0]));
        let rest = s.drop_first();
        assert forall|i: int| 0 <= i < n - 1 implies is_digit(#[trigger] rest[i]) by {
            assert(is_digit(s[i + 1]));
        }
        lemma_leading_digits(rest, n - 1);
        assert(s.take(n) =~= seq![s[0]] + rest.take(n - 1));
    }
}

/// Where the digits that begin at a position end.
fn digits_end(chars: &Vec<char>, from: usize) -> (r: usize)
    requires
        from <= chars@.len(),
    ensures
        from <= r <= chars@.len(),
        leading_digits(chars@.skip(from as int)) == chars@.subrange(from as int, r as int),
        all_digits(chars@.subrange(from as int, r as int)),
{
    let mut i: usize = from;
    while i < chars.len() && is_decimal_digit(chars[i])
        invariant
            from <= i <= chars@.len(),
            forall|j: int| from <= j < i ==> is_digit(#[trigger] chars@[j]),
        decreases chars.len() - i,
    {
        i = i + 1;
    }
    proof {
        let s = chars@.skip(from as int);
        assert forall|j: int| 0 <= j < i - from implies is_digit(#[trigger] s[j]) by {
            assert(is_digit(chars@[from + j]));
        }
        if i < chars@.len() {
            assert(s[i - from] == chars@[i as int]);
        }
        lemma_leading_digits(s, i - from);
        assert(s.take(i - from) =~= chars@.subrange(from as int, i as int));
    }
    i
}

/// The exponent that a text writes, if it writes one, and whether it is kept
/// within bounds.
fn parse_exponent(s: &str) -> (r: Option<i128>)
    ensures
        match exponent_of(s@) {
            None => r is None,
            Some(e) => r matches Some(x) && if e >= FAR {
                x == FAR
            } else if e <= -FAR {
                x == -FAR
            } else {
                x == e
            },
        },
{
    let chars = chars_of(s);
    let n = chars.len();
    if n == 0 {
        return Some(0);
    }
    if !is_letter(chars[0], 'e') {
        return None;
    }
    let signed = n > 1 && (chars[1] == '-' || chars[1] == '+');
    let negative = n > 1 && chars[1] == '-';
    let from: usize = if signed {
        2
    } else {
        1
    };
    let digits = s.substring_char(from, n);
    let end = digits_end(&chars, from);
    proof {
        let rest = s@.drop_first();
        assert(n > 1 ==> rest[0] == chars@[1]);
        assert(digits@ =~= unsigned(rest).1);
        assert(negative == unsigned(rest).0);
        assert(digits@ =~= chars@.skip(from as int));
        if end == n {
            assert(chars@.subrange(from as int, end as int) =~= digits@);
        } else {
            lemma_not_all_digits(digits@);
        }
    }
    if from == n || end != n {
        return None;
    }
    let kept = chars_of(digits);
    let value = value_within(&kept, kept.len(), FAR as u128);
    assert(kept@.take(kept@.len() as int) =~= digits@);
    if negative {
        Some(-(value as i128))
    } else {
        Some(value as i128)
    }
}

/// A text that goes on behind its leading digits is not all digits.
proof fn lemma_not_all_digits(s: Text)
    requires
        leading_digits(s).len() < s.len(),
    ensures
        !all_digits(s),
    decreases s.len(),
{
    if is_digit(s[0]) {
        let rest = s.drop_first();
        lemma_not_all_digits(rest);
        let i = choose|i: int| 0 <= i < rest.len() && !is_digit(#[trigger] rest[i]);
        assert(!is_digit(s[i + 1]));
    }
}

/// Digits, of which the last ones stand behind the point, times the power of ten
/// that a text writes and a unit.
fn parse_tail(digits: &Vec<char>, places: usize, tail: &str, unit: u64) -> (r: Option<usize>)
    requires
        all_digits(digits@),
        1 <= unit <= 1_073_741_824,
    ensures
        match exponent_of(tail@) {
            None => r is None,
            Some(e) => {
                let size = scaled(digits@, e - places, unit as nat);
                r matches Some(x) && x == if size > usize::MAX {
                    usize::MAX as int
                } else {
                    size as int
                }
            },
        },
{
    let exponent: i128 = match parse_exponent(tail) {
        Some(e) => e,
        None => {
            return None;
        },
    };
    let ghost e = exponent_of(tail@)->0;
    if exponent == FAR {
        let none = value_within(digits, digits.len(), 1) == 0;
        assert(digits@.take(digits@.len() as int) =~= digits@);
        proof {
            let power = e - places;
            if none {
                let p = pow10(power as nat) as int;
                assert(0 * p * (unit as int) == 0) by (nonlinear_arith);
            } else {
                lemma_far_up(digits@, power, unit as nat);
            }
        }
        return Some(
            if none {
                0
            } else {
                usize::MAX
            },
        );
    }
    if exponent == -FAR {
        proof {
            assert(digits@.len() == digits.len());
            lemma_far_down(digits@, e - places, unit as nat);
        }
        return Some(0);
    }
    Some(scale(digits, exponent - places as i128, unit))
}

/// The digits of a number as it is written, and what stands behind them.
struct Written<'a> {
    /// The digits before and behind the point.
    digits: Vec<char>,
    /// How many of them stand behind the point.
    places: usize,
    /// What stands behind the digits.
    tail: &'a str,
}

/// Whether these are the digits of a text, and what stands behind them.
spec fn writes(body: Text, w: Written) -> bool {
    let whole = leading_digits(body);
    let rest = body.skip(whole.len() as int);
    let pointed = rest.len() > 0 && rest[0] == '.';
    let fraction = if pointed {
        leading_digits(rest.drop_first())
    } else {
        Seq::empty()
    };
    &&& w.digits@ == whole + fraction
    &&& w.places == fraction.len()
    &&& w.tail@ == if pointed {
        rest.skip(1 + fraction.len() as int)
    } else {
        rest
    }
    &&& all_digits(w.digits@)
}

/// Reads the digits of a number.
fn read_digits<'a>(body: &'a str) -> (r: Written<'a>)
    ensures
        writes(body@, r),
{
    let chars = chars_of(body);
    let n = chars.len();
    let point = digits_end(&chars, 0);
    let pointed = point < n && chars[point] == '.';
    let after: usize = if pointed {
        point + 1
    } else {
        point
    };
    let end: usize = if pointed {
        digits_end(&chars, after)
    } else {
        point
    };
    let ghost whole = chars@.subrange(0, point as int);
    let ghost fraction = chars@.subrange(after as int, end as int);
    let ghost rest = body@.skip(whole.len() as int);
    proof {
        assert(chars@.skip(0) =~= body@);
        assert(rest =~= chars@.skip(point as int));
        if pointed {
            assert(rest[0] == '.');
            assert(rest.drop_first() =~= chars@.skip(after as int));
            assert(rest.skip(1 + fraction.len() as int) =~= chars@.skip(end as int));
        } else {
            assert(fraction =~= Seq::empty());
        }
    }
    let tail = body.substring_char(end, n);
    assert(tail@ =~= chars@.skip(end as int));
    let mut digits = chars_of(body.substring_char(0, point));
    let mut behind = chars_of(body.substring_char(after, end));
    digits.append(&mut behind);
    proof {
        assert(digits@ =~= whole + fraction);
        assert forall|i: int| 0 <= i < digits@.len() implies is_digit(#[trigger] digits@[i]) by {
            if i < whole.len() {
                assert(is_digit(whole[i]));
            } else if pointed {
                assert(is_digit(fraction[i - whole.len()]));
            }
        }
    }
    Written { digits, places: end - after, tail }
}

/// The bytes of a number of units, if a text writes a number.
fn parse_scaled(s: &str, unit: u64) -> (r: Option<usize>)
    requires
        1 <= unit <= 1_073_741_824,
    ensures
        match number_of(s@) {
            Some(number) => r matches Some(size) && size == bytes_of(number, unit as nat),
            None => r is None,
        },
{
    let chars = chars_of(s);
    let n = chars.len();
    let signed = n > 0 && (chars[0] == '-' || chars[0] == '+');
    let negative = n > 0 && chars[0] == '-';
    let body = if signed {
        s.substring_char(1, n)
    } else {
        s
    };
    proof {
        reveal_strlit("inf");
        reveal_strlit("infinity");
        reveal_strlit("nan");
        assert(body@ =~= unsigned(s@).1);
    }
    if is_word(body, "inf") || is_word(body, "infinity") {
        return Some(
            if negative {
                0
            } else {
                usize::MAX
            },
        );
    }
    if is_word(body, "nan") {
        return Some(0);
    }
    let written = read_digits(body);
    if written.digits.len() == 0 {
        return None;
    }
    match parse_tail(&written.digits, written.places, written.tail, unit) {
        Some(size) => Some(
            if negative {
                0
            } else {
                size
            },
        ),
        None => None,
    }
}

/// The plain number of bytes that a text writes, if it does.
fn parse_plain(s: &str) -> (r: Option<usize>)
    ensures
        match plain_size(s@) {
            Some(size) => r matches Some(x) && x == size,
            None => r is None,
        },
{
    let chars = chars_of(s);
    let n = chars.len();
    let from: usize = if n > 0 && chars[0] == '+' {
        1
    } else {
        0
    };
    let digits = s.substring_char(from, n);
    let end = digits_end(&chars, from);
    proof {
        assert(digits@ =~= chars@.skip(from as int));
        if from == 1 {
            assert(digits@ =~= s@.drop_first());
        } else {
            assert(digits@ =~= s@);
        }
        if end == n {
            assert(chars@.subrange(from as int, end as int) =~= digits@);
        } else {
            lemma_not_all_digits(digits@);
        }
    }
    if from == n || end != n {
        return None;
    }
    let kept = chars_of(digits);
    let value = value_within(&kept, kept.len(), TOO_MANY);
    assert(kept@.take(kept@.len() as int) =~= digits@);
    if value > usize::MAX as u128 {
        None
    } else {
        Some(value as usize)
    }
}

/// Parse a human-readable byte size string.
/// Supports: B, KB, MB, GB (case-insensitive).
/// Returns `None` if parsing fails.
pub fn parse_byte_size(s: &str) -> (r: Option<usize>)
    ensures
        match byte_size(s@) {
            Some(size) => r matches Some(x) && x == size,
            None => r is None,
        },
{
    let t = trim_str(s);
    if let Some(size) = parse_plain(t) {
        return Some(size);
    }
    let chars = chars_of(t);
    let n = chars.len();
    if n == 0 || !is_letter(chars[n - 1], 'b') {
        return None;
    }
    let ghost short = t@.drop_last();
    assert(n > 1 ==> short.last() == chars@[n - 2]);
    let (unit, width): (u64, usize) = if n > 1 && is_letter(chars[n - 2], 'g') {
        (1_073_741_824, 2)
    } else if n > 1 && is_letter(chars[n - 2], 'm') {
        (1_048_576, 2)
    } else if n > 1 && is_letter(chars[n - 2], 'k') {
        (1024, 2)
    } else {
        (1, 1)
    };
    let number = t.substring_char(0, n - width);
    proof {
        if width == 2 {
            assert(number@ =~= short.drop_last());
        } else {
            assert(number@ =~= short);
        }
    }
    parse_scaled(trim_str(number), unit)
}

} // verus!
