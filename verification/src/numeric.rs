//! Positional numerals: fixed-width digit strings in radix 2 to 16 and their values.

use vstd::prelude::*;

verus! {

/// The digit that writes `d`, lower case above nine.
pub open spec fn digit_char(d: int) -> char {
    if d < 10 {
        (0x30 + d) as char
    } else {
        (0x61 + d - 10) as char
    }
}

/// The value of a digit in either case, or `None` for any other character.
pub open spec fn digit_value(c: char) -> Option<int> {
    let code = c as int;
    if 0x30 <= code <= 0x39 {
        Some(code - 0x30)
    } else if 0x61 <= code <= 0x66 {
        Some(code - 0x61 + 10)
    } else if 0x41 <= code <= 0x46 {
        Some(code - 0x41 + 10)
    } else {
        None
    }
}

/// Whether `c` is a digit of the given radix.
pub open spec fn is_digit(c: char, radix: int) -> bool {
    digit_value(c) is Some && digit_value(c)->0 < radix
}

/// Whether every character of `s` is a digit of the given radix.
pub open spec fn all_digits(s: Seq<char>, radix: int) -> bool {
    forall|i: int| 0 <= i < s.len() ==> is_digit(#[trigger] s[i], radix)
}

/// `radix` to the power `width`.
pub open spec fn capacity(radix: int, width: nat) -> int
    decreases width,
{
    if width == 0 {
        1
    } else {
        radix * capacity(radix, (width - 1) as nat)
    }
}

/// The last `width` digits of `value`, most significant first, zero-padded.
pub open spec fn digits(value: int, radix: int, width: nat) -> Seq<char>
    decreases width,
{
    if width == 0 {
        Seq::empty()
    } else {
        digits(value / radix, radix, (width - 1) as nat).push(digit_char(value % radix))
    }
}

/// The number of digits that `value` needs, at least one.
pub open spec fn digit_count(value: int, radix: int) -> nat
    decreases value,
{
    if value < radix || radix < 2 {
        1
    } else {
        proof {
            assert(0 <= value / radix < value) by (nonlinear_arith)
                requires
                    2 <= radix <= value,
            ;
        }
        1 + digit_count(value / radix, radix)
    }
}

/// `value` written with as many digits as it needs, zero-padded to `min_width`.
pub open spec fn padded(value: int, radix: int, min_width: nat) -> Seq<char> {
    let needed = digit_count(value, radix);
    digits(value, radix, if needed < min_width { min_width } else { needed })
}

/// The number that a digit string writes; meaningful where `all_digits` holds.
pub open spec fn value_of(s: Seq<char>, radix: int) -> int
    decreases s.len(),
{
    if s.len() == 0 {
        0
    } else {
        value_of(s.drop_last(), radix) * radix + digit_value(s.last()).unwrap_or(0)
    }
}

/// A digit string of the given radix that is not empty.
pub open spec fn is_numeral(s: Seq<char>, radix: int) -> bool {
    s.len() > 0 && all_digits(s, radix)
}

/// The digit that writes `d` is read as `d`, and is neither blank nor colon.
pub proof fn lemma_digit_char_value(d: int, radix: int)
    requires
        0 <= d < radix <= 16,
    ensures
        digit_value(digit_char(d)) == Some(d),
        is_digit(digit_char(d), radix),
        digit_char(d) != ' ',
        digit_char(d) != ':',
{
}

/// A fixed-width rendering has its width.
pub proof fn lemma_digits_len(value: int, radix: int, width: nat)
    ensures
        digits(value, radix, width).len() == width,
    decreases width,
{
    if width > 0 {
        lemma_digits_len(value / radix, radix, (width - 1) as nat);
    }
}

/// Every character of a fixed-width rendering is a digit of the radix.
pub proof fn lemma_digits_are_digits(value: int, radix: int, width: nat)
    requires
        0 <= value,
        2 <= radix <= 16,
    ensures
        all_digits(digits(value, radix, width), radix),
        forall|i: int|
            0 <= i < width ==> #[trigger] digits(value, radix, width)[i] != ' ' && digits(
                value,
                radix,
                width,
            )[i] != ':',
    decreases width,
{
    lemma_digits_len(value, radix, width);
    if width > 0 {
        let rest = digits(value / radix, radix, (width - 1) as nat);
        assert(0 <= value / radix) by (nonlinear_arith)
            requires
                0 <= value,
                2 <= radix,
        ;
        lemma_digits_are_digits(value / radix, radix, (width - 1) as nat);
        lemma_digits_len(value / radix, radix, (width - 1) as nat);
        lemma_digit_char_value(value % radix, radix);
        let full = digits(value, radix, width);
        assert forall|i: int| 0 <= i < width implies is_digit(#[trigger] full[i], radix) && full[i]
            != ' ' && full[i] != ':' by {
            if i < width - 1 {
                assert(full[i] == rest[i]);
            }
        }
    }
}

/// Reading back what `digits` wrote gives the value, if the width holds it.
pub proof fn lemma_value_of_digits(value: int, radix: int, width: nat)
    requires
        2 <= radix <= 16,
        0 <= value < capacity(radix, width),
    ensures
        value_of(digits(value, radix, width), radix) == value,
    decreases width,
{
    if width > 0 {
        let rest = digits(value / radix, radix, (width - 1) as nat);
        let cap = capacity(radix, (width - 1) as nat);
        assert(0 <= value / radix < cap) by (nonlinear_arith)
            requires
                0 <= value < radix * cap,
                2 <= radix,
        ;
        lemma_value_of_digits(value / radix, radix, (width - 1) as nat);
        lemma_digit_char_value(value % radix, radix);
        let full = digits(value, radix, width);
        assert(full.drop_last() =~= rest);
        assert(full.last() == digit_char(value % radix));
        assert((value / radix) * radix + value % radix == value) by (nonlinear_arith)
            requires
                2 <= radix,
        ;
    }
}

/// A power of the radix is at least one.
pub proof fn lemma_capacity_positive(radix: int, width: nat)
    requires
        2 <= radix,
    ensures
        capacity(radix, width) >= 1,
    decreases width,
{
    if width > 0 {
        lemma_capacity_positive(radix, (width - 1) as nat);
        let cap = capacity(radix, (width - 1) as nat);
        assert(radix * cap >= 1) by (nonlinear_arith)
            requires
                2 <= radix,
                cap >= 1,
        ;
    }
}

/// A wider numeral holds at least what a narrower one holds.
pub proof fn lemma_capacity_grows(radix: int, narrow: nat, wide: nat)
    requires
        2 <= radix,
        narrow <= wide,
    ensures
        capacity(radix, narrow) <= capacity(radix, wide),
    decreases wide,
{
    if narrow < wide {
        lemma_capacity_grows(radix, narrow, (wide - 1) as nat);
        lemma_capacity_positive(radix, (wide - 1) as nat);
        let cap = capacity(radix, (wide - 1) as nat);
        assert(radix * cap >= cap) by (nonlinear_arith)
            requires
                2 <= radix,
                cap >= 1,
        ;
    }
}

/// A value fits in the number of digits that `digit_count` gives it.
pub proof fn lemma_digit_count_fits(value: int, radix: int)
    requires
        2 <= radix,
        0 <= value,
    ensures
        value < capacity(radix, digit_count(value, radix)),
    decreases value,
{
    if value < radix {
        assert(capacity(radix, 1) == radix * capacity(radix, 0));
    } else {
        assert(0 <= value / radix < value) by (nonlinear_arith)
            requires
                2 <= radix <= value,
        ;
        lemma_digit_count_fits(value / radix, radix);
        let cap = capacity(radix, digit_count(value / radix, radix));
        assert(value < radix * cap) by (nonlinear_arith)
            requires
                2 <= radix,
                0 <= value,
                value / radix < cap,
        ;
    }
}

/// A zero-padded rendering is a numeral without blank or colon that reads back as the value.
pub proof fn lemma_padded_reads_back(value: int, radix: int, min_width: nat)
    requires
        2 <= radix <= 16,
        0 <= value,
    ensures
        is_numeral(padded(value, radix, min_width), radix),
        padded(value, radix, min_width).len() >= min_width,
        value_of(padded(value, radix, min_width), radix) == value,
        forall|i: int|
            0 <= i < padded(value, radix, min_width).len() ==> #[trigger] padded(
                value,
                radix,
                min_width,
            )[i] != ' ' && padded(value, radix, min_width)[i] != ':',
{
    let needed = digit_count(value, radix);
    let width = if needed < min_width {
        min_width
    } else {
        needed
    };
    lemma_digit_count_fits(value, radix);
    lemma_capacity_grows(radix, needed, width);
    lemma_digits_len(value, radix, width);
    lemma_digits_are_digits(value, radix, width);
    lemma_value_of_digits(value, radix, width);
}

/// A prefix of a digit string writes no more than the whole string.
pub proof fn lemma_value_of_prefix(s: Seq<char>, radix: int, n: int)
    requires
        2 <= radix,
        0 <= n <= s.len(),
    ensures
        0 <= value_of(s.take(n), radix) <= value_of(s, radix),
    decreases s.len() - n,
{
    lemma_value_of_nonnegative(s.take(n), radix);
    if n < s.len() {
        lemma_value_of_prefix(s, radix, n + 1);
        let longer = s.take(n + 1);
        assert(longer.drop_last() =~= s.take(n));
        let head = value_of(s.take(n), radix);
        let d = digit_value(longer.last()).unwrap_or(0);
        assert(d >= 0);
        assert(head * radix + d >= head) by (nonlinear_arith)
            requires
                head >= 0,
                radix >= 2,
                d >= 0,
        ;
    } else {
        assert(s.take(n) =~= s);
    }
}

/// No digit string writes a negative number.
pub proof fn lemma_value_of_nonnegative(s: Seq<char>, radix: int)
    requires
        2 <= radix,
    ensures
        0 <= value_of(s, radix),
    decreases s.len(),
{
    if s.len() > 0 {
        lemma_value_of_nonnegative(s.drop_last(), radix);
        let head = value_of(s.drop_last(), radix);
        let d = digit_value(s.last()).unwrap_or(0);
        assert(head * radix + d >= 0) by (nonlinear_arith)
            requires
                head >= 0,
                radix >= 2,
                d >= 0,
        ;
    }
}

/// 2 to the power 64, the number of `u64` values.
pub proof fn lemma_capacity_of_u64()
    ensures
        capacity(2, 64) == 0x1_0000_0000_0000_0000,
{
    reveal_with_fuel(capacity, 65);
}

/// The digit for `d`.
pub fn digit_for(d: u8) -> (c: char)
    requires
        d < 16,
    ensures
        c == digit_char(d as int),
{
    if d < 10 {
        (0x30 + d) as char
    } else {
        (0x61 + (d - 10)) as char
    }
}

/// The value of the digit `c` in the given radix, if it is one.
pub fn digit_of(c: char, radix: u8) -> (d: Option<u8>)
    requires
        2 <= radix <= 16,
    ensures
        is_digit(c, radix as int) ==> d == Some(digit_value(c)->0 as u8),
        !is_digit(c, radix as int) ==> d is None,
{
    let code: u32 = c as u32;
    let value: u32 = if 0x30 <= code && code <= 0x39 {
        code - 0x30
    } else if 0x61 <= code && code <= 0x66 {
        code - 0x61 + 10
    } else if 0x41 <= code && code <= 0x46 {
        code - 0x41 + 10
    } else {
        16
    };
    if value < radix as u32 {
        Some(value as u8)
    } else {
        None
    }
}

/// Appends the last `width` digits of `value` to `out`.
pub fn push_digits(out: &mut Vec<char>, value: u64, radix: u8, width: usize)
    requires
        2 <= radix <= 16,
    ensures
        final(out)@ == old(out)@ + digits(value as int, radix as int, width as nat),
    decreases width,
{
    if width > 0 {
        push_digits(out, value / (radix as u64), radix, width - 1);
        out.push(digit_for((value % (radix as u64)) as u8));
        assert(final(out)@ =~= old(out)@ + digits(value as int, radix as int, width as nat));
    } else {
        assert(out@ =~= old(out)@ + digits(value as int, radix as int, width as nat));
    }
}

/// Counts the digits that `value` needs.
pub fn count_digits(value: u64, radix: u8) -> (n: usize)
    requires
        2 <= radix <= 16,
    ensures
        n == digit_count(value as int, radix as int),
        1 <= n <= 64,
{
    let mut n: usize = 1;
    let mut rest: u64 = value;
    proof {
        lemma_capacity_of_u64();
    }
    while rest >= radix as u64
        invariant
            2 <= radix <= 16,
            1 <= n,
            n + digit_count(rest as int, radix as int) == 1 + digit_count(
                value as int,
                radix as int,
            ),
            n <= 64,
            (rest as int) < capacity(2, (65 - n) as nat),
        decreases rest,
    {
        proof {
            let cap = capacity(2, (64 - n) as nat);
            assert(capacity(2, (65 - n) as nat) == 2 * cap);
            if n == 64 {
                assert(capacity(2, 1) == 2 * capacity(2, 0));
            }
            assert((rest as int) / (radix as int) < cap) by (nonlinear_arith)
                requires
                    0 <= rest < 2 * cap,
                    2 <= radix,
            ;
        }
        rest = rest / (radix as u64);
        n += 1;
    }
    n
}

/// The number that `s` writes, if `s` is a numeral of the radix and the number fits a `u64`.
pub open spec fn numeral_value(s: Seq<char>, radix: int) -> Option<u64> {
    if is_numeral(s, radix) && value_of(s, radix) <= u64::MAX {
        Some(value_of(s, radix) as u64)
    } else {
        None
    }
}

/// Reads `text[from..to]` as a number.
pub fn read_number(text: &[char], from: usize, to: usize, radix: u8) -> (r: Option<u64>)
    requires
        from <= to <= text.len(),
        2 <= radix <= 16,
    ensures
        r == numeral_value(text@.subrange(from as int, to as int), radix as int),
{
    let ghost s = text@.subrange(from as int, to as int);
    if from == to {
        return None;
    }
    let mut acc: u64 = 0;
    let mut i: usize = from;
    while i < to
        invariant
            from <= i <= to <= text.len(),
            2 <= radix <= 16,
            s == text@.subrange(from as int, to as int),
            all_digits(s.take(i - from), radix as int),
            acc == value_of(s.take(i - from), radix as int),
        decreases to - i,
    {
        let ghost next = s.take(i - from + 1);
        proof {
            assert(next.drop_last() =~= s.take(i - from));
            assert(next.last() == text@[i as int]);
            lemma_value_of_prefix(s, radix as int, i - from + 1);
        }
        let d = match digit_of(text[i], radix) {
            Some(d) => d,
            None => {
                assert(!is_digit(s[i - from], radix as int));
                return None;
            },
        };
        let shifted = match acc.checked_mul(radix as u64) {
            Some(x) => x,
            None => {
                return None;
            },
        };
        acc = match shifted.checked_add(d as u64) {
            Some(x) => x,
            None => {
                return None;
            },
        };
        i += 1;
        proof {
            assert forall|k: int| 0 <= k < next.len() implies is_digit(
                #[trigger] next[k],
                radix as int,
            ) by {
                if k < next.len() - 1 {
                    assert(next[k] == s.take(i - from - 1)[k]);
                }
            }
        }
    }
    proof {
        assert(s.take(to - from) =~= s);
    }
    Some(acc)
}

} // verus!
