//! Whole numbers written and read as text.
use vstd::prelude::*;
use vstd::string::*;


verus! {

/// What a character counts as a digit in a radix of at most sixteen.
pub open spec fn digit_value(character: char, radix: nat) -> Option<nat> {
    let code = character as u32;
    let value: int = if 0x30 <= code <= 0x39 {
        code - 0x30
    } else if 0x61 <= code <= 0x66 {
        code - 0x61 + 10
    } else if 0x41 <= code <= 0x46 {
        code - 0x41 + 10
    } else {
        16
    };
    if value < radix {
        Some(value as nat)
    } else {
        None
    }
}

/// The number that a row of digits stands for; `None` where another character is among them.
pub open spec fn digits_value(digits: Seq<char>, radix: nat) -> Option<nat>
    decreases digits.len(),
{
    if digits.len() == 0 {
        Some(0)
    } else {
        match (digits_value(digits.drop_last(), radix), digit_value(digits.last(), radix)) {
            (Some(high), Some(low)) => Some(high * radix + low),
            _ => None,
        }
    }
}

/// The number that a text stands for, read as the standard library reads an unsigned integer of
/// at most `limit`: an optional plus sign, then at least one digit.
pub open spec fn number_value(text: Seq<char>, radix: nat, limit: nat) -> Option<nat> {
    let digits = if text.len() > 0 && text.first() == '+' {
        text.drop_first()
    } else {
        text
    };
    if digits.len() == 0 {
        None
    } else {
        match digits_value(digits, radix) {
            Some(value) => if value <= limit {
                Some(value)
            } else {
                None
            },
            None => None,
        }
    }
}

pub open spec fn optional_number(value: Option<u64>) -> Option<nat> {
    match value {
        Some(number) => Some(number as nat),
        None => None,
    }
}

/// The decimal digits of a number, without leading zeros.
pub open spec fn decimal(number: nat) -> Seq<char>
    decreases number,
{
    if number < 10 {
        seq![decimal_digit(number)]
    } else {
        decimal(number / 10).push(decimal_digit(number % 10))
    }
}

pub open spec fn decimal_digit(value: nat) -> char {
    ((0x30 + value) as u32) as char
}

/// The small hexadecimal digit of a value below sixteen.
pub open spec fn hex_digit(value: nat) -> char {
    if value < 10 {
        ((0x30 + value) as u32) as char
    } else {
        ((0x61 + value - 10) as u32) as char
    }
}

/// The small hexadecimal digits of a number, without leading zeros.
pub open spec fn hexadecimal(number: nat) -> Seq<char>
    decreases number,
{
    if number < 16 {
        seq![hex_digit(number)]
    } else {
        hexadecimal(number / 16).push(hex_digit(number % 16))
    }
}

/// Two small hexadecimal digits for every byte.
pub open spec fn hex_bytes(bytes: Seq<u8>) -> Seq<char>
    decreases bytes.len(),
{
    if bytes.len() == 0 {
        Seq::empty()
    } else {
        hex_bytes(bytes.drop_last()).push(hex_digit((bytes.last() / 16) as nat)).push(
            hex_digit((bytes.last() % 16) as nat),
        )
    }
}

fn digit(character: char, radix: u64) -> (result: Option<u64>)
    requires
        radix <= 16,
    ensures
        optional_number(result) == digit_value(character, radix as nat),
{
    let code: u32 = character as u32;
    let value: u64 = if 0x30 <= code && code <= 0x39 {
        (code - 0x30) as u64
    } else if 0x61 <= code && code <= 0x66 {
        (code - 0x61 + 10) as u64
    } else if 0x41 <= code && code <= 0x46 {
        (code - 0x41 + 10) as u64
    } else {
        16
    };
    if value < radix {
        Some(value)
    } else {
        None
    }
}

/// Leading digits never stand for more than all of them do.
pub proof fn lemma_digits_value_prefix(digits: Seq<char>, radix: nat, count: int)
    requires
        0 <= count <= digits.len(),
        1 <= radix,
    ensures
        digits_value(digits, radix) matches Some(value) ==> (digits_value(
            digits.take(count),
            radix,
        ) matches Some(start) && start <= value),
    decreases digits.len(),
{
    if count == digits.len() {
        assert(digits.take(count) =~= digits);
    } else {
        lemma_digits_value_prefix(digits.drop_last(), radix, count);
        assert(digits.drop_last().take(count) =~= digits.take(count));
        match (digits_value(digits.drop_last(), radix), digit_value(digits.last(), radix)) {
            (Some(high), Some(low)) => {
                assert(high <= high * radix) by (nonlinear_arith)
                    requires
                        1 <= radix,
                ;
            },
            _ => {},
        }
    }
}

/// Reads an unsigned integer of at most `limit` as the standard library does.
pub fn parse_number(text: &[char], radix: u64, limit: u64) -> (result: Option<u64>)
    requires
        2 <= radix <= 16,
    ensures
        optional_number(result) == number_value(text@, radix as nat, limit as nat),
{
    let start: usize = if text.len() > 0 && text[0] == '+' {
        1
    } else {
        0
    };
    let ghost digits = text@.skip(start as int);
    proof {
        if start == 1 {
            assert(digits =~= text@.drop_first());
        } else {
            assert(digits =~= text@);
        }
    }
    if start == text.len() {
        return None;
    }
    let mut value: u64 = 0;
    let mut index: usize = start;
    proof {
        assert(digits.take(0) =~= Seq::<char>::empty());
    }
    while index < text.len()
        invariant
            2 <= radix <= 16,
            start <= index <= text.len(),
            start < text.len(),
            digits == text@.skip(start as int),
            digits == (if text@.len() > 0 && text@.first() == '+' {
                text@.drop_first()
            } else {
                text@
            }),
            value <= limit,
            digits_value(digits.take(index - start), radix as nat) == Some(value as nat),
        decreases text.len() - index,
    {
        let ghost taken = index - start;
        proof {
            assert(digits.take(taken + 1).drop_last() =~= digits.take(taken));
            assert(digits.take(taken + 1).last() == text@[index as int]);
            lemma_digits_value_prefix(digits, radix as nat, taken + 1);
        }
        match digit(text[index], radix) {
            None => {
                return None;
            },
            Some(low) => {
                let room: u64 = limit / radix;
                if value > room {
                    proof {
                        assert(value * radix > limit) by (nonlinear_arith)
                            requires
                                value > limit / radix,
                                2 <= radix,
                        ;
                    }
                    return None;
                }
                proof {
                    assert(value * radix <= limit) by (nonlinear_arith)
                        requires
                            value <= limit / radix,
                            2 <= radix,
                    ;
                }
                let high: u64 = value * radix;
                if low > limit - high {
                    return None;
                }
                value = high + low;
            },
        }
        index += 1;
    }
    proof {
        assert(digits.take(text.len() - start) =~= digits);
    }
    Some(value)
}

/// Appends the decimal digits of a number.
pub fn push_decimal(text: &mut String, number: u64)
    ensures
        final(text)@ == old(text)@ + decimal(number as nat),
    decreases number,
{
    if number >= 10 {
        push_decimal(text, number / 10);
    }
    let code: u8 = 0x30 + (number % 10) as u8;
    text.push(code as char);
    proof {
        if number >= 10 {
            assert(text@ =~= old(text)@ + decimal(number as nat));
        } else {
            assert(text@ =~= old(text)@ + seq![decimal_digit(number as nat)]);
        }
    }
}

/// The decimal digits of a number.
pub fn decimal_text(number: u64) -> (result: String)
    ensures
        result@ == decimal(number as nat),
{
    let mut result = String::new();
    push_decimal(&mut result, number);
    proof {
        assert(Seq::<char>::empty() + decimal(number as nat) =~= decimal(number as nat));
    }
    result
}

fn small_hex_digit(value: u8) -> (result: char)
    requires
        value < 16,
    ensures
        result == hex_digit(value as nat),
{
    let code: u8 = if value < 10 {
        0x30 + value
    } else {
        0x61 + (value - 10)
    };
    code as char
}

/// Appends the small hexadecimal digits of a number.
pub fn push_hexadecimal(text: &mut String, number: u16)
    ensures
        final(text)@ == old(text)@ + hexadecimal(number as nat),
    decreases number,
{
    if number >= 16 {
        push_hexadecimal(text, number / 16);
    }
    text.push(small_hex_digit((number % 16) as u8));
    proof {
        if number >= 16 {
            assert(text@ =~= old(text)@ + hexadecimal(number as nat));
        } else {
            assert(text@ =~= old(text)@ + seq![hex_digit(number as nat)]);
        }
    }
}

/// Two small hexadecimal digits for every byte.
pub fn hex_text(bytes: &[u8]) -> (result: String)
    ensures
        result@ == hex_bytes(bytes@),
{
    let mut result = String::new();
    let mut index: usize = 0;
    proof {
        assert(bytes@.take(0) =~= Seq::<u8>::empty());
    }
    while index < bytes.len()
        invariant
            index <= bytes.len(),
            result@ == hex_bytes(bytes@.take(index as int)),
        decreases bytes.len() - index,
    {
        proof {
            assert(bytes@.take(index + 1).drop_last() =~= bytes@.take(index as int));
        }
        result.push(small_hex_digit(bytes[index] / 16));
        result.push(small_hex_digit(bytes[index] % 16));
        index += 1;
    }
    proof {
        assert(bytes@.take(bytes@.len() as int) =~= bytes@);
    }
    result
}

pub proof fn lemma_decimal_digits(number: nat)
    ensures
        decimal(number).len() > 0,
        digits_value(decimal(number), 10) == Some(number),
        forall|i: int|
            0 <= i < decimal(number).len() ==> digit_value(#[trigger] decimal(number)[i], 10) is Some,
    decreases number,
{
    if number < 10 {
        assert(decimal(number).drop_last() =~= Seq::<char>::empty());
        assert(decimal(number).last() == decimal_digit(number));
        reveal_with_fuel(digits_value, 2);
    } else {
        lemma_decimal_digits(number / 10);
        assert(decimal(number).drop_last() =~= decimal(number / 10));
        assert(number == (number / 10) * 10 + number % 10);
    }
}

/// Reading the decimal digits of a number gives the number back.
pub proof fn decimal_round_trip(number: nat, limit: nat)
    requires
        number <= limit,
    ensures
        number_value(decimal(number), 10, limit) == Some(number),
{
    lemma_decimal_digits(number);
    assert(digit_value(decimal(number)[0], 10) is Some);
}

/// Different bytes have different hexadecimal texts.
pub proof fn hex_bytes_injective(left: Seq<u8>, right: Seq<u8>)
    requires
        hex_bytes(left) == hex_bytes(right),
    ensures
        left == right,
    decreases left.len(),
{
    lemma_hex_bytes_length(left);
    lemma_hex_bytes_length(right);
    if left.len() > 0 {
        let a = hex_bytes(left);
        let b = hex_bytes(right);
        assert(a.drop_last().drop_last() =~= hex_bytes(left.drop_last()));
        assert(b.drop_last().drop_last() =~= hex_bytes(right.drop_last()));
        hex_bytes_injective(left.drop_last(), right.drop_last());
        assert(a[a.len() - 1] == b[b.len() - 1]);
        assert(a[a.len() - 2] == b[b.len() - 2]);
        assert(left.last() == right.last());
        assert(left =~= left.drop_last().push(left.last()));
        assert(right =~= right.drop_last().push(right.last()));
    } else {
        assert(left =~= right);
    }
}

pub proof fn lemma_hex_bytes_length(bytes: Seq<u8>)
    ensures
        hex_bytes(bytes).len() == 2 * bytes.len(),
    decreases bytes.len(),
{
    if bytes.len() > 0 {
        lemma_hex_bytes_length(bytes.drop_last());
    }
}

/// Hexadecimal text is made of digits and the letters up to `f`.
pub proof fn lemma_hex_digits(bytes: Seq<u8>)
    ensures
        forall|i: int|
            0 <= i < hex_bytes(bytes).len() ==> 0x30 <= (#[trigger] hex_bytes(bytes)[i]) as u32
                <= 0x66,
    decreases bytes.len(),
{
    if bytes.len() > 0 {
        let fewer = bytes.drop_last();
        lemma_hex_digits(fewer);
        let text = hex_bytes(bytes);
        let high = hex_digit((bytes.last() / 16) as nat);
        let low = hex_digit((bytes.last() % 16) as nat);
        assert(text =~= hex_bytes(fewer).push(high).push(low));
        assert forall|i: int| 0 <= i < text.len() implies 0x30 <= (#[trigger] text[i]) as u32
            <= 0x66 by {
            if i < hex_bytes(fewer).len() {
                assert(text[i] == hex_bytes(fewer)[i]);
            } else if i == hex_bytes(fewer).len() {
                assert(text[i] == high);
            } else {
                assert(text[i] == low);
            }
        }
    }
}

/// Reading the hexadecimal digits of a number gives the number back.
pub proof fn hexadecimal_round_trip(number: nat, limit: nat)
    requires
        number <= limit,
    ensures
        number_value(hexadecimal(number), 16, limit) == Some(number),
{
    lemma_hexadecimal_digits(number);
    assert(digit_value(hexadecimal(number)[0], 16) is Some);
}

proof fn lemma_hexadecimal_digits(number: nat)
    ensures
        hexadecimal(number).len() > 0,
        digits_value(hexadecimal(number), 16) == Some(number),
        forall|i: int|
            0 <= i < hexadecimal(number).len() ==> digit_value(
                #[trigger] hexadecimal(number)[i],
                16,
            ) is Some,
    decreases number,
{
    if number < 16 {
        assert(hexadecimal(number).drop_last() =~= Seq::<char>::empty());
        assert(hexadecimal(number).last() == hex_digit(number));
        reveal_with_fuel(digits_value, 2);
    } else {
        lemma_hexadecimal_digits(number / 16);
        assert(hexadecimal(number).drop_last() =~= hexadecimal(number / 16));
        assert(number == (number / 16) * 16 + number % 16);
    }
}

/// A text is a number exactly where it holds digits of the radix only, one at least, behind a
/// plus sign or none, and the number keeps to the limit: a further digit counts the number so
/// many times as the radix says.
pub proof fn numbers_hold_digits_only(text: Seq<char>, radix: nat, limit: nat, last: char)
    requires
        2 <= radix <= 16,
    ensures
        number_value(text, radix, limit) matches Some(value) ==> value <= limit && text.len() > 0
            && (text[0] == '+' ==> text.len() > 1) && forall|i: int|
            0 <= i < text.len() && (i > 0 || text[0] != '+') ==> digit_value(
                #[trigger] text[i],
                radix,
            ) is Some,
        text.len() > 0 && text[0] != '+' ==> number_value(seq!['+'] + text, radix, limit)
            == number_value(text, radix, limit),
        digit_value(last, radix) is Some && number_value(text, radix, limit) is Some && (
        number_value(text, radix, limit)->0) * radix + digit_value(last, radix)->0 <= limit
            ==> number_value(text.push(last), radix, limit) == Some(
            (number_value(text, radix, limit)->0) * radix + digit_value(last, radix)->0,
        ),
{
    let digits = if text.len() > 0 && text.first() == '+' {
        text.drop_first()
    } else {
        text
    };
    lemma_all_digits(digits, radix);
    if number_value(text, radix, limit) is Some {
        assert forall|i: int| 0 <= i < text.len() && (i > 0 || text[0] != '+') implies digit_value(
            #[trigger] text[i],
            radix,
        ) is Some by {
            if text[0] == '+' {
                assert(digits[i - 1] == text[i]);
            } else {
                assert(digits[i] == text[i]);
            }
        }
        let more = text.push(last);
        let longer = digits.push(last);
        assert(longer.drop_last() =~= digits);
        if text[0] == '+' {
            assert(more.drop_first() =~= longer);
        } else {
            assert(more =~= longer);
        }
    }
    if text.len() > 0 && text[0] != '+' {
        assert((seq!['+'] + text).drop_first() =~= text);
    }
}

proof fn lemma_all_digits(digits: Seq<char>, radix: nat)
    ensures
        digits_value(digits, radix) is Some ==> forall|i: int|
            0 <= i < digits.len() ==> digit_value(#[trigger] digits[i], radix) is Some,
    decreases digits.len(),
{
    if digits.len() > 0 {
        let fewer = digits.drop_last();
        lemma_all_digits(fewer, radix);
        if digits_value(digits, radix) is Some {
            assert forall|i: int| 0 <= i < digits.len() implies digit_value(
                #[trigger] digits[i],
                radix,
            ) is Some by {
                if i < fewer.len() {
                    assert(fewer[i] == digits[i]);
                }
            }
        }
    }
}

/// The digits are `0` to `9` and, where the radix has them, the letters from `a` on in either
/// case, each worth one more than the one before it.
pub proof fn digits_count_up(character: char, radix: nat)
    requires
        2 <= radix <= 16,
    ensures
        match digit_value(character, radix) {
            Some(value) => value < radix && (character as int == 0x30 + value && value < 10
                || character as int == 0x61 + value - 10 && value >= 10 || character as int == 0x41
                + value - 10 && value >= 10),
            None => forall|value: nat|
                value < radix ==> !(character as int == 0x30 + value && value < 10) && !(
                character as int == 0x61 + value - 10 && value >= 10) && #[trigger] capital(value)
                    != character as int,
        },
{
}

/// The code of the capital letter that stands for a value behind nine.
pub open spec fn capital(value: nat) -> int {
    if value >= 10 {
        0x41 + value - 10
    } else {
        -1
    }
}

/// Each byte is written as two hexadecimal digits, the higher one first, in the order of the
/// bytes.
pub proof fn bytes_are_written_as_two_digits(bytes: Seq<u8>, index: int)
    requires
        0 <= index < bytes.len(),
    ensures
        hex_bytes(bytes).len() == 2 * bytes.len(),
        digit_value(hex_bytes(bytes)[2 * index], 16) == Some((bytes[index] / 16) as nat),
        digit_value(hex_bytes(bytes)[2 * index + 1], 16) == Some((bytes[index] % 16) as nat),
    decreases bytes.len(),
{
    lemma_hex_bytes_length(bytes);
    let fewer = bytes.drop_last();
    lemma_hex_bytes_length(fewer);
    if index < fewer.len() {
        bytes_are_written_as_two_digits(fewer, index);
        assert(hex_bytes(bytes)[2 * index] == hex_bytes(fewer)[2 * index]);
        assert(hex_bytes(bytes)[2 * index + 1] == hex_bytes(fewer)[2 * index + 1]);
    }
}

} // verus!
