//! Numbers written out as text.

use vstd::prelude::*;
use vstd::string::*;

verus! {

/// The lower-case hexadecimal digit of a value below sixteen.
pub open spec fn digit(value: nat) -> char {
    if value < 10 {
        ('0' as int + value) as char
    } else {
        ('a' as int + (value - 10)) as char
    }
}

/// A number in decimal notation, without leading zeros.
pub open spec fn decimal(number: nat) -> Seq<char>
    decreases number,
{
    if number < 10 {
        seq![digit(number)]
    } else {
        decimal(number / 10).push(digit(number % 10))
    }
}

/// A byte as two hexadecimal digits.
pub open spec fn hex_byte(byte: u8) -> Seq<char> {
    seq![digit((byte / 16) as nat), digit((byte % 16) as nat)]
}

/// The text of one hexadecimal digit.
fn digit_text(value: u8) -> (text: &'static str)
    requires
        value < 16,
    ensures
        text@ == seq![digit(value as nat)],
{
    proof {
        reveal_strlit("0");
        reveal_strlit("1");
        reveal_strlit("2");
        reveal_strlit("3");
        reveal_strlit("4");
        reveal_strlit("5");
        reveal_strlit("6");
        reveal_strlit("7");
        reveal_strlit("8");
        reveal_strlit("9");
        reveal_strlit("a");
        reveal_strlit("b");
        reveal_strlit("c");
        reveal_strlit("d");
        reveal_strlit("e");
        reveal_strlit("f");
    }
    if value == 0 {
        "0"
    } else if value == 1 {
        "1"
    } else if value == 2 {
        "2"
    } else if value == 3 {
        "3"
    } else if value == 4 {
        "4"
    } else if value == 5 {
        "5"
    } else if value == 6 {
        "6"
    } else if value == 7 {
        "7"
    } else if value == 8 {
        "8"
    } else if value == 9 {
        "9"
    } else if value == 10 {
        "a"
    } else if value == 11 {
        "b"
    } else if value == 12 {
        "c"
    } else if value == 13 {
        "d"
    } else if value == 14 {
        "e"
    } else {
        "f"
    }
}

/// Writes a number in decimal notation.
pub fn decimal_text(number: usize) -> (text: String)
    ensures
        text@ == decimal(number as nat),
    decreases number,
{
    if number < 10 {
        digit_text(number as u8).to_owned()
    } else {
        let mut text = decimal_text(number / 10);
        text.append(digit_text((number % 10) as u8));
        assert(text@ == decimal((number / 10) as nat).push(digit((number % 10) as nat)));
        text
    }
}

/// Appends a byte as two hexadecimal digits.
pub fn append_hex_byte(text: &mut String, byte: u8)
    ensures
        final(text)@ == old(text)@ + hex_byte(byte),
{
    text.append(digit_text(byte / 16));
    text.append(digit_text(byte % 16));
    assert(text@ == old(text)@ + hex_byte(byte));
}

/// Two numbers are written alike only if they are equal.
pub proof fn lemma_decimal_injective(first: nat, second: nat)
    requires
        decimal(first) == decimal(second),
    ensures
        first == second,
    decreases first,
{
    let a = decimal(first);
    let b = decimal(second);
    lemma_decimal_length(first);
    lemma_decimal_length(second);
    assert(a.last() == digit(first % 10));
    assert(b.last() == digit(second % 10));
    assert(digit(first % 10) as int == '0' as int + first % 10);
    assert(digit(second % 10) as int == '0' as int + second % 10);
    if first >= 10 && second >= 10 {
        assert(a.drop_last() == decimal(first / 10));
        assert(b.drop_last() == decimal(second / 10));
        lemma_decimal_injective(first / 10, second / 10);
    }
}

/// Exactly the one-digit numbers are written with one digit.
proof fn lemma_decimal_length(number: nat)
    ensures
        decimal(number).len() >= 1,
        number < 10 <==> decimal(number).len() == 1,
    decreases number,
{
    if number >= 10 {
        lemma_decimal_length(number / 10);
    }
}

/// The number that decimal digits stand for.
pub open spec fn read_decimal(text: Seq<char>) -> int
    decreases text.len(),
{
    if text.len() == 0 {
        0
    } else {
        read_decimal(text.drop_last()) * 10 + (text.last() as int - '0' as int)
    }
}

/// Whether a text is a number in decimal notation, without a zero in front.
pub open spec fn is_decimal(text: Seq<char>) -> bool {
    &&& text.len() > 0
    &&& forall|i: int| 0 <= i < text.len() ==> '0' <= #[trigger] text[i] <= '9'
    &&& text.len() > 1 ==> text[0] != '0'
}

/// The value of a lower-case hexadecimal digit.
pub open spec fn read_digit(c: char) -> int {
    if c <= '9' {
        c as int - '0' as int
    } else {
        c as int - 'a' as int + 10
    }
}

/// Whether a character is a lower-case hexadecimal digit.
pub open spec fn is_hex_digit(c: char) -> bool {
    '0' <= c <= '9' || 'a' <= c <= 'f'
}

/// A number in decimal notation reads back as itself, and has no zero in front.
pub proof fn law_decimals_read_back(number: nat)
    ensures
        is_decimal(decimal(number)),
        read_decimal(decimal(number)) == number,
        number > 0 ==> decimal(number)[0] != '0',
    decreases number,
{
    if number < 10 {
        assert(decimal(number).drop_last() =~= Seq::empty());
        assert(read_decimal(decimal(number).drop_last()) == 0);
    } else {
        law_decimals_read_back(number / 10);
        assert(decimal(number).drop_last() =~= decimal(number / 10));
    }
}

/// There is only one way to write a number in decimal notation.
pub proof fn law_decimal_notation_is_unique(text: Seq<char>, number: nat)
    requires
        is_decimal(text),
        read_decimal(text) == number,
    ensures
        text == decimal(number),
    decreases text.len(),
{
    let front = text.drop_last();
    assert(text.last() == text[text.len() - 1]);
    lemma_read_decimal_is_positive(front);
    if front.len() == 0 {
        assert(read_decimal(front) == 0);
        assert(text =~= seq![digit(number)]);
    } else {
        assert(front[0] == text[0]);
        assert(is_decimal(front)) by {
            assert forall|i: int| 0 <= i < front.len() implies '0' <= #[trigger] front[i]
                <= '9' by {
                assert(front[i] == text[i]);
            }
        }
        assert(read_decimal(front) > 0);
        assert(number / 10 == read_decimal(front));
        law_decimal_notation_is_unique(front, number / 10);
        assert(text =~= front.push(text.last()));
    }
}

/// Digits stand for a number that is not negative, and positive if they begin with one that is.
proof fn lemma_read_decimal_is_positive(text: Seq<char>)
    requires
        forall|i: int| 0 <= i < text.len() ==> '0' <= #[trigger] text[i] <= '9',
    ensures
        read_decimal(text) >= 0,
        text.len() > 0 && text[0] != '0' ==> read_decimal(text) > 0,
    decreases text.len(),
{
    if text.len() > 0 {
        let front = text.drop_last();
        assert(text.last() == text[text.len() - 1]);
        assert forall|i: int| 0 <= i < front.len() implies '0' <= #[trigger] front[i] <= '9' by {
            assert(front[i] == text[i]);
        }
        lemma_read_decimal_is_positive(front);
        if front.len() > 0 {
            assert(front[0] == text[0]);
        }
    }
}

/// A byte in hexadecimal notation has two digits and reads back as itself.
pub proof fn law_hexadecimal_bytes_read_back(byte: u8)
    ensures
        hex_byte(byte).len() == 2,
        is_hex_digit(hex_byte(byte)[0]),
        is_hex_digit(hex_byte(byte)[1]),
        read_digit(hex_byte(byte)[0]) * 16 + read_digit(hex_byte(byte)[1]) == byte,
{
}

} // verus!
