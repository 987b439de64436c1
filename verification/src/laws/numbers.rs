//! Numerals, the order of texts, single precision numbers and random numbers.

use vstd::arithmetic::power2::*;
use vstd::prelude::*;

use crate::float::Binary32;
use crate::search::sampling::SplitMix64;

verus! {

/// The digit of a number below sixteen, as it is written.
pub open spec fn written(digit: int) -> char {
    "0123456789abcdef"@[digit]
}

proof fn lemma_written(digit: nat)
    requires
        digit < 16,
    ensures
        crate::text::hex_char(digit) == written(digit as int),
        digit < 10 ==> crate::text::digit_char(digit) == written(digit as int),
{
    reveal_strlit("0123456789abcdef");
}

/// A decimal numeral is written from its last digit: one that is longer than a digit is
/// the numeral of the number without its last digit, and then that digit. It has no
/// leading zero.
pub proof fn law_decimal_numerals(number: nat)
    ensures
        number < 10 ==> crate::text::decimal(number) == seq![written(number as int)],
        number >= 10 ==> crate::text::decimal(number) == crate::text::decimal(number / 10).push(
            written((number % 10) as int),
        ),
        number > 0 ==> crate::text::decimal(number)[0] != '0',
        crate::text::signed_decimal(number as int) == crate::text::decimal(number),
        number > 0 ==> crate::text::signed_decimal(-(number as int)) == seq!['-']
            + crate::text::decimal(number),
    decreases number,
{
    lemma_written(number % 10);
    reveal_strlit("0123456789abcdef");
    if number >= 10 {
        law_decimal_numerals(number / 10);
        crate::text::law_decimal_reads_back(number / 10);
    }
}

/// The number that hexadecimal digits stand for, given what each stands for.
pub open spec fn hex_value(digits: Seq<int>) -> int
    decreases digits.len(),
{
    if digits.len() == 0 {
        0
    } else {
        16 * hex_value(digits.drop_last()) + digits.last()
    }
}

/// Sixteen hexadecimal digits hold every bit of a number of 64 bits: the digits can be
/// read back to it.
pub proof fn law_hexadecimal_reads_back(number: nat, width: nat, digits: Seq<int>)
    requires
        digits.len() == width,
        forall|i: int| 0 <= i < width ==> 0 <= #[trigger] digits[i] < 16,
        forall|i: int|
            0 <= i < width ==> crate::text::hexadecimal(number, width)[i] == written(
                #[trigger] digits[i],
            ),
    ensures
        crate::text::hexadecimal(number, width).len() == width,
        hex_value(digits) == number as int % pow2(4 * width) as int,
    decreases width,
{
    lemma2_to64();
    if width == 0 {
        assert(number as int % 1 == 0);
    } else {
        let less = (width - 1) as nat;
        let short = digits.drop_last();
        let text = crate::text::hexadecimal(number, width);
        let front = crate::text::hexadecimal(number / 16, less);
        lemma_hexadecimal_len(number / 16, less);
        assert(text == front.push(crate::text::hex_char(number % 16)));
        assert forall|i: int| 0 <= i < less implies front[i] == written(#[trigger] short[i]) by {
            assert(text[i] == front[i]);
            assert(short[i] == digits[i]);
        }
        law_hexadecimal_reads_back(number / 16, less, short);
        lemma_written(number % 16);
        assert(text[less as int] == written(digits[less as int]));
        lemma_written_apart((number % 16) as int, digits[less as int]);
        let p = pow2(4 * less);
        lemma_pow2_pos(4 * less);
        lemma_pow2_adds(4, 4 * less);
        assert(4 + 4 * less == 4 * width);
        assert(pow2(4) == 16);
        vstd::arithmetic::div_mod::lemma_mod_breakdown(number as int, 16, p as int);
        assert(number as int % (16 * p as int) == 16 * ((number as int / 16) % p as int)
            + number as int % 16);
    }
}

proof fn lemma_hexadecimal_len(number: nat, width: nat)
    ensures
        crate::text::hexadecimal(number, width).len() == width,
    decreases width,
{
    if width > 0 {
        lemma_hexadecimal_len(number / 16, (width - 1) as nat);
    }
}

proof fn lemma_written_apart(a: int, b: int)
    requires
        0 <= a < 16,
        0 <= b < 16,
        written(a) == written(b),
    ensures
        a == b,
{
    reveal_strlit("0123456789abcdef");
    lemma_written(a as nat);
    lemma_written(b as nat);
}

/// A numeral that is read is one decimal digit or more, after at most one plus sign, and
/// stands for what its digits add up to: each further digit counts ten times what was
/// read before.
pub proof fn law_numerals_are_read_by_their_digits(digits: Seq<char>, digit: int)
    requires
        0 <= digit < 10,
    ensures
        crate::text::digits_value(digits.push(written(digit))) == 10 * crate::text::digits_value(
            digits,
        ) + digit,
        crate::text::digits_value(seq![]) == 0,
        crate::text::is_numeral(digits.push(written(digit))) <==> (digits.len() == 0
            || crate::text::is_numeral(digits) || digits == seq!['+']),
        crate::text::is_numeral(seq!['+'] + digits) ==> crate::text::numeral_digits(
            seq!['+'] + digits,
        ) == digits,
        !crate::text::is_numeral(seq![]),
        !crate::text::is_numeral(seq!['+']),
        crate::text::is_numeral(digits) && digits[0] != '+' ==> crate::text::numeral_digits(
            digits,
        ) == digits,
{
    lemma_written(digit as nat);
    let more = digits.push(written(digit));
    assert(more.drop_last() =~= digits);
    assert((seq!['+'] + digits).skip(1) =~= digits);
    let own = crate::text::numeral_digits(digits);
    let rest = crate::text::numeral_digits(more);
    if digits.len() == 0 {
        assert(more =~= seq![written(digit)]);
        assert(rest == more);
    } else {
        assert(more[0] == digits[0]);
        assert(rest =~= own.push(written(digit)));
        if crate::text::is_numeral(more) {
            assert forall|i: int| 0 <= i < own.len() implies crate::text::is_digit(
                #[trigger] own[i],
            ) by {
                assert(rest[i] == own[i]);
            }
            if own.len() == 0 {
                assert(digits =~= seq!['+']);
            }
        }
        if crate::text::is_numeral(digits) || digits == seq!['+'] {
            assert forall|i: int| 0 <= i < rest.len() implies crate::text::is_digit(
                #[trigger] rest[i],
            ) by {
                if i < own.len() {
                    assert(rest[i] == own[i]);
                }
            }
        }
    }
}

/// Every character of a numeral is a decimal digit, but for a plus sign before the first.
pub proof fn law_numerals_hold_digits_only(numeral: Seq<char>, i: int)
    requires
        crate::text::is_numeral(numeral),
        0 <= i < numeral.len(),
    ensures
        (i == 0 && numeral[0] == '+' && numeral.len() > 1) || exists|digit: int|
            0 <= digit < 10 && numeral[i] == #[trigger] written(digit),
{
    let digits = crate::text::numeral_digits(numeral);
    if i > 0 || numeral[0] != '+' {
        let at = if numeral[0] == '+' {
            i - 1
        } else {
            i
        };
        assert(digits[at] == numeral[i]);
        assert(crate::text::is_digit(digits[at]));
        let digit = numeral[i] as int - '0' as int;
        reveal_strlit("0123456789abcdef");
        assert(0 <= digit < 10);
        assert(numeral[i] == written(digit));
    }
}

/// One text comes before another where it is a proper beginning of it, or has the
/// smaller character in the first place in which they differ.
pub proof fn law_texts_are_ordered_by_their_first_difference(
    a: Seq<char>,
    b: Seq<char>,
    place: int,
)
    requires
        0 <= place <= a.len(),
        place <= b.len(),
        a.take(place) == b.take(place),
        place < a.len() && place < b.len() ==> a[place] != b[place],
    ensures
        crate::text::text_before(a, b) <==> if place < a.len() && place < b.len() {
            a[place] < b[place]
        } else {
            a.len() < b.len()
        },
    decreases place,
{
    if place > 0 {
        assert(a[0] == a.take(place)[0]);
        assert(b[0] == b.take(place)[0]);
        assert(a.skip(1).take(place - 1) =~= a.take(place).skip(1));
        assert(b.skip(1).take(place - 1) =~= b.take(place).skip(1));
        law_texts_are_ordered_by_their_first_difference(a.skip(1), b.skip(1), place - 1);
    }
}

/// What the bits of a single precision number stand for, counted in units of 2^-149: a
/// fraction alone counts itself; with the exponent `exponent` there are 2^23 more, and
/// each step of the exponent doubles them. The sign negates the number.
pub proof fn law_bits_stand_for_a_number(exponent: nat, fraction: nat, negative: bool)
    requires
        exponent <= 255,
        fraction < 0x80_0000,
    ensures
        ({
            let sign: int = if negative {
                0x8000_0000
            } else {
                0
            };
            let number = Binary32 { bits: (sign + 0x80_0000 * exponent + fraction) as u32 };
            let size = if exponent == 0 {
                fraction
            } else {
                (0x80_0000 + fraction) * pow2((exponent - 1) as nat)
            };
            &&& number.finite() <==> exponent < 255
            &&& number.nan() <==> exponent == 255 && fraction > 0
            &&& number.units() == if negative {
                -(size as int)
            } else {
                size as int
            }
        }),
{
    let magnitude = 0x80_0000 * exponent + fraction;
    assert(magnitude / 0x80_0000 == exponent);
    assert(magnitude % 0x80_0000 == fraction);
}

/// One number exceeds another where it is the larger one, and equals it where it is the
/// same; what is no number does neither.
pub proof fn law_numbers_compare_by_their_values(x: Binary32, y: Binary32)
    ensures
        x.exceeds(y) <==> !x.nan() && !y.nan() && x.units() > y.units(),
        x.same(y) <==> !x.nan() && !y.nan() && x.units() == y.units(),
        x.rank() < y.rank() <==> if x.bits >= 0x8000_0000 {
            y.bits < 0x8000_0000 || x.bits > y.bits
        } else {
            y.bits < 0x8000_0000 && x.bits < y.bits
        },
{
}

/// Two finite numbers are apart where their difference, rounded to single precision, is
/// more than 1e-5: where it lies above the middle between that number, whose bits are
/// 0x3727c5ac, and the next one.
pub proof fn law_apart_means_further_than_the_tolerance(x: Binary32, y: Binary32)
    ensures
        ({
            let limit = Binary32 { bits: 0x3727_c5ac }.units() + Binary32 {
                bits: 0x3727_c5ad,
            }.units();
            x.finite() && y.finite() ==> (x.apart(y) <==> {
                ||| 2 * (x.units() - y.units()) > limit
                ||| 2 * (y.units() - x.units()) > limit
            })
        }),
        x.nan() || y.nan() ==> !x.apart(y),
        !x.nan() && !y.nan() && !(x.finite() && y.finite()) ==> (x.apart(y) <==> x.bits
            != y.bits),
{
    let a = Binary32 { bits: 0x3727_c5ac };
    let b = Binary32 { bits: 0x3727_c5ad };
    assert(a.magnitude() / 0x80_0000 == 110 && a.magnitude() % 0x80_0000 == 0x27_c5ac);
    assert(b.magnitude() / 0x80_0000 == 110 && b.magnitude() % 0x80_0000 == 0x27_c5ad);
    lemma_pow2_unfold(109);
    let p = pow2(108);
    assert(0xa7_c5ac * (2 * p) + 0xa7_c5ad * (2 * p) == 2 * ((2 * 0xa7_c5ac + 1) * p))
        by (nonlinear_arith);
}

/// A draw moves the state on by one step modulo 2^64, whatever was drawn, and the number
/// is that of the published SplitMix64 generator.
pub proof fn law_draws_follow_splitmix(generator: SplitMix64)
    ensures
        generator.advanced().state == (generator.state + 0x9e37_79b9_7f4a_7c15) % 0x1_0000_0000_0000_0000,
        ({
            let s = generator.advanced().state;
            let a = ((s ^ (s / 0x4000_0000)) * 0xbf58_476d_1ce4_e5b9) % 0x1_0000_0000_0000_0000;
            let b = (((a as u64) ^ (a as u64 / 0x800_0000)) * 0x94d0_49bb_1331_11eb)
                % 0x1_0000_0000_0000_0000;
            generator.drawn() == (b as u64) ^ (b as u64 / 0x8000_0000)
        }),
{
    let s = generator.advanced().state;
    assert(s >> 30 == s / 0x4000_0000) by (bit_vector);
    let a = (s ^ (s >> 30)).wrapping_mul(0xbf58_476d_1ce4_e5b9);
    assert(a >> 27 == a / 0x800_0000) by (bit_vector);
    let b = (a ^ (a >> 27)).wrapping_mul(0x94d0_49bb_1331_11eb);
    assert(b >> 31 == b / 0x8000_0000) by (bit_vector);
}

} // verus!
