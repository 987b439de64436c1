//! Text: decimal and hexadecimal numerals, comparison and the order of strings.

use vstd::prelude::*;

verus! {

pub open spec fn digit_char(digit: nat) -> char {
    ('0' as u32 + digit) as char
}

/// The decimal numeral of `number`, without leading zeros.
pub open spec fn decimal(number: nat) -> Seq<char>
    decreases number,
{
    if number < 10 {
        seq![digit_char(number)]
    } else {
        decimal(number / 10).push(digit_char(number % 10))
    }
}

/// The decimal numeral of `number`, with a minus sign where it is negative.
pub open spec fn signed_decimal(number: int) -> Seq<char> {
    if number < 0 {
        seq!['-'] + decimal((-number) as nat)
    } else {
        decimal(number as nat)
    }
}

pub open spec fn hex_char(digit: nat) -> char {
    if digit < 10 {
        ('0' as u32 + digit) as char
    } else {
        ('a' as u32 + (digit - 10)) as char
    }
}

/// The `width` lowest hexadecimal digits of `number`, the highest first.
pub open spec fn hexadecimal(number: nat, width: nat) -> Seq<char>
    decreases width,
{
    if width == 0 {
        seq![]
    } else {
        hexadecimal(number / 16, (width - 1) as nat).push(hex_char(number % 16))
    }
}

pub open spec fn is_digit(c: char) -> bool {
    '0' <= c <= '9'
}

/// The number that a row of decimal digits stands for.
pub open spec fn digits_value(digits: Seq<char>) -> nat
    decreases digits.len(),
{
    if digits.len() == 0 {
        0
    } else {
        digits_value(digits.drop_last()) * 10 + (digits.last() as u32 - '0' as u32) as nat
    }
}

/// The digits of a numeral: what is left of it once a leading plus sign is gone.
pub open spec fn numeral_digits(numeral: Seq<char>) -> Seq<char> {
    if numeral.len() > 0 && numeral[0] == '+' {
        numeral.skip(1)
    } else {
        numeral
    }
}

/// A numeral is one decimal digit or more, after at most one plus sign.
pub open spec fn is_numeral(numeral: Seq<char>) -> bool {
    &&& numeral_digits(numeral).len() > 0
    &&& forall|i: int|
        0 <= i < numeral_digits(numeral).len() ==> is_digit(#[trigger] numeral_digits(numeral)[i])
}

/// Whether `a` comes before `b` in the order of strings: by the first character
/// in which they differ, or as a proper prefix.
pub open spec fn text_before(a: Seq<char>, b: Seq<char>) -> bool
    decreases a.len(),
{
    if b.len() == 0 {
        false
    } else if a.len() == 0 {
        true
    } else if a[0] != b[0] {
        a[0] < b[0]
    } else {
        text_before(a.skip(1), b.skip(1))
    }
}

/// Whether two strings hold the same characters.
pub fn same_text(a: &str, b: &str) -> (r: bool)
    ensures
        r == (a@ == b@),
{
    let mut left = a.chars();
    let mut right = b.chars();
    let ghost mut done: int = 0;
    loop
        invariant
            0 <= done <= a@.len(),
            done <= b@.len(),
            vstd::std_specs::iter::IteratorSpec::remaining(&left) == a@.skip(done),
            vstd::std_specs::iter::IteratorSpec::remaining(&right) == b@.skip(done),
            a@.take(done) == b@.take(done),
        decreases a@.len() - done,
    {
        let x = left.next();
        let y = right.next();
        match (x, y) {
            (Some(p), Some(q)) => {
                if p != q {
                    assert(a@[done] != b@[done]);
                    return false;
                }
                proof {
                    assert(a@.take(done + 1) =~= a@.take(done).push(a@[done]));
                    assert(b@.take(done + 1) =~= b@.take(done).push(b@[done]));
                    done = done + 1;
                }
            },
            (None, None) => {
                assert(a@ =~= a@.take(done));
                assert(b@ =~= b@.take(done));
                return true;
            },
            _ => {
                return false;
            },
        }
    }
}

/// Whether `a` comes before `b` in the order of strings.
pub fn is_text_before(a: &str, b: &str) -> (r: bool)
    ensures
        r == text_before(a@, b@),
{
    let mut left = a.chars();
    let mut right = b.chars();
    let ghost mut done: int = 0;
    loop
        invariant
            0 <= done <= a@.len(),
            done <= b@.len(),
            vstd::std_specs::iter::IteratorSpec::remaining(&left) == a@.skip(done),
            vstd::std_specs::iter::IteratorSpec::remaining(&right) == b@.skip(done),
            text_before(a@, b@) == text_before(a@.skip(done), b@.skip(done)),
        decreases a@.len() - done,
    {
        let x = left.next();
        let y = right.next();
        match (x, y) {
            (Some(p), Some(q)) => {
                if p != q {
                    return p < q;
                }
                proof {
                    assert(a@.skip(done).skip(1) =~= a@.skip(done + 1));
                    assert(b@.skip(done).skip(1) =~= b@.skip(done + 1));
                    done = done + 1;
                }
            },
            (None, Some(_)) => {
                return true;
            },
            _ => {
                return false;
            },
        }
    }
}

/// The characters of a string.
pub fn characters(text: &str) -> (r: Vec<char>)
    ensures
        r@ == text@,
{
    let mut rest = text.chars();
    let mut out: Vec<char> = Vec::new();
    loop
        invariant
            out@.len() <= text@.len(),
            out@ == text@.take(out@.len() as int),
            vstd::std_specs::iter::IteratorSpec::remaining(&rest) == text@.skip(
                out@.len() as int,
            ),
        decreases text@.len() - out@.len(),
    {
        let ghost before = out@;
        match rest.next() {
            Some(c) => {
                out.push(c);
                assert(out@ =~= text@.take(out@.len() as int));
                assert(text@.skip(before.len() as int).drop_first() =~= text@.skip(
                    out@.len() as int,
                ));
            },
            None => {
                assert(out@ =~= text@);
                return out;
            },
        }
    }
}

/// The text of one hexadecimal digit.
fn digit_text(digit: u64) -> (r: &'static str)
    requires
        digit < 16,
    ensures
        r@ == seq![hex_char(digit as nat)],
        digit < 10 ==> r@ == seq![digit_char(digit as nat)],
{
    proof {
        reveal_strlit("0");
        reveal_strlit("1");
        reveal_strlit("2");
        reveal_strlit("3");
        reveal_strlit("4");
        reveal_strlit("5");
        reveal_strlit("6");
        reveal_strlit("7");
        reveal_strlit("8");
        reveal_strlit("9");
        reveal_strlit("a");
        reveal_strlit("b");
        reveal_strlit("c");
        reveal_strlit("d");
        reveal_strlit("e");
        reveal_strlit("f");
    }
    match digit {
        0 => "0",
        1 => "1",
        2 => "2",
        3 => "3",
        4 => "4",
        5 => "5",
        6 => "6",
        7 => "7",
        8 => "8",
        9 => "9",
        10 => "a",
        11 => "b",
        12 => "c",
        13 => "d",
        14 => "e",
        _ => "f",
    }
}

/// Appends the decimal numeral of `number`.
pub fn push_decimal(out: &mut String, number: u64)
    ensures
        final(out)@ == old(out)@ + decimal(number as nat),
    decreases number,
{
    if number >= 10 {
        push_decimal(out, number / 10);
    }
    out.append(digit_text(number % 10));
    assert(final(out)@ =~= old(out)@ + decimal(number as nat));
}

/// Appends the decimal numeral of `number`, with a minus sign where it is negative.
pub fn push_signed(out: &mut String, number: i32)
    ensures
        final(out)@ == old(out)@ + signed_decimal(number as int),
{
    if number < 0 {
        proof {
            reveal_strlit("-");
        }
        out.append("-");
        push_decimal(out, (-(number as i64)) as u64);
        assert("-"@ =~= seq!['-']);
        assert(final(out)@ =~= old(out)@ + (seq!['-'] + decimal((-number) as nat)));
    } else {
        push_decimal(out, number as u64);
    }
}

/// Appends the `width` lowest hexadecimal digits of `number`.
pub fn push_hexadecimal(out: &mut String, number: u64, width: u32)
    ensures
        final(out)@ == old(out)@ + hexadecimal(number as nat, width as nat),
    decreases width,
{
    if width > 0 {
        push_hexadecimal(out, number / 16, width - 1);
        out.append(digit_text(number % 16));
    }
    assert(final(out)@ =~= old(out)@ + hexadecimal(number as nat, width as nat));
}

proof fn lemma_digits_value_grows(digits: Seq<char>, shown: int)
    requires
        0 <= shown <= digits.len(),
        forall|i: int| 0 <= i < digits.len() ==> is_digit(#[trigger] digits[i]),
    ensures
        digits_value(digits.take(shown)) <= digits_value(digits),
    decreases digits.len(),
{
    if shown < digits.len() {
        lemma_digits_value_grows(digits.drop_last(), shown);
        assert(digits.drop_last().take(shown) =~= digits.take(shown));
    } else {
        assert(digits.take(shown) =~= digits);
    }
}

/// Reads a numeral. There is a result exactly where the text is a numeral and its
/// number fits.
pub fn parse_number(numeral: &[char]) -> (r: Option<usize>)
    ensures
        r is Some <==> is_numeral(numeral@) && digits_value(numeral_digits(numeral@))
            <= usize::MAX,
        r matches Some(number) ==> number == digits_value(numeral_digits(numeral@)),
{
    let start: usize = if numeral.len() > 0 && numeral[0] == '+' {
        1
    } else {
        0
    };
    let ghost digits = numeral_digits(numeral@);
    assert(digits =~= numeral@.skip(start as int));
    if numeral.len() == start {
        return None;
    }
    let mut value: usize = 0;
    let mut next: usize = start;
    assert(digits.take(0) =~= Seq::<char>::empty());
    while next < numeral.len()
        invariant
            start <= next <= numeral@.len(),
            start <= 1,
            digits == numeral@.skip(start as int),
            digits == numeral_digits(numeral@),
            forall|i: int| 0 <= i < next - start ==> is_digit(#[trigger] digits[i]),
            value == digits_value(digits.take(next - start)),
        decreases numeral@.len() - next,
    {
        let c: char = numeral[next];
        assert(c == digits[next - start]);
        if !('0' <= c && c <= '9') {
            return None;
        }
        let digit: usize = (c as u32 - 48) as usize;
        let ghost shown = digits.take(next - start + 1);
        assert(shown.drop_last() =~= digits.take(next - start));
        assert(shown.last() == c);
        assert(digits_value(shown) == value * 10 + digit);
        if value > (usize::MAX - digit) / 10 {
            proof {
                if is_numeral(numeral@) {
                    lemma_digits_value_grows(digits, next - start + 1);
                }
            }
            return None;
        }
        value = value * 10 + digit;
        next = next + 1;
    }
    assert(digits.take(next - start) =~= digits);
    Some(value)
}

/// Reading a decimal numeral gives back the number that it was written for.
pub proof fn law_decimal_reads_back(number: nat)
    ensures
        is_numeral(decimal(number)),
        numeral_digits(decimal(number)) == decimal(number),
        digits_value(decimal(number)) == number,
        forall|i: int| 0 <= i < decimal(number).len() ==> is_digit(#[trigger] decimal(number)[i]),
    decreases number,
{
    reveal_with_fuel(digits_value, 2);
    if number >= 10 {
        law_decimal_reads_back(number / 10);
        assert(decimal(number).drop_last() =~= decimal(number / 10));
        assert(decimal(number).last() == digit_char(number % 10));
    } else {
        assert(decimal(number).drop_last() =~= Seq::<char>::empty());
        assert(decimal(number)[0] == digit_char(number));
    }
}

/// The order of strings is total: of two different strings exactly one comes
/// before the other, and none comes before itself.
pub proof fn law_text_order_is_total(a: Seq<char>, b: Seq<char>)
    ensures
        text_before(a, b) || text_before(b, a) || a == b,
        !(text_before(a, b) && text_before(b, a)),
        a == b ==> !text_before(a, b),
    decreases a.len(),
{
    if a.len() > 0 && b.len() > 0 && a[0] == b[0] {
        law_text_order_is_total(a.skip(1), b.skip(1));
        if a.skip(1) == b.skip(1) {
            assert(a =~= seq![a[0]] + a.skip(1));
            assert(b =~= seq![b[0]] + b.skip(1));
        }
    } else if a.len() == 0 && b.len() == 0 {
        assert(a =~= b);
    }
}

/// The order of strings carries over from one string to the next.
pub proof fn law_text_order_is_transitive(a: Seq<char>, b: Seq<char>, c: Seq<char>)
    requires
        text_before(a, b),
        text_before(b, c),
    ensures
        text_before(a, c),
    decreases a.len(),
{
    if a.len() > 0 && a[0] == b[0] && b[0] == c[0] {
        law_text_order_is_transitive(a.skip(1), b.skip(1), c.skip(1));
    }
}

} // verus!
