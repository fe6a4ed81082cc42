//! Laws of numbers and names as text.
use vstd::prelude::*;

use crate::text::{
    all_digits, decimal, decimal_text, digits_value, is_digit, is_name, lowered, number_in,
    signed_decimal_text, trim, trimmed, trimmed_end, trimmed_start, white_space,
};

verus! {

/// The decimal digits of a number stand for it, and only zero starts with a zero.
proof fn lemma_decimal(number: nat)
    ensures
        decimal(number).len() > 0,
        all_digits(decimal(number)),
        digits_value(decimal(number)) == number,
        decimal(number)[0] == '0' ==> number == 0,
    decreases number,
{
    let text = decimal(number);
    if number < 10 {
        reveal_with_fuel(digits_value, 2);
        assert(text.drop_last() =~= Seq::empty());
    } else {
        lemma_decimal(number / 10);
        assert(text.drop_last() =~= decimal(number / 10));
        assert(text[0] == decimal(number / 10)[0]);
    }
}

/// A number that is written down is read back as itself, and is written without leading
/// zeros.
pub proof fn lemma_decimal_read_back(number: u64, text: String)
    requires
        call_ensures(decimal_text, (number,), text),
    ensures
        number_in(text@) == Some(number as nat),
        text@.len() > 1 ==> text@[0] != '0',
{
    lemma_decimal(number as nat);
    if text@[0] == '0' {
        assert(number == 0);
    }
}

/// A signed number is written as its absolute value, behind a minus sign exactly if it is
/// negative.
pub proof fn lemma_signed_read_back(number: i32, text: String)
    requires
        call_ensures(signed_decimal_text, (number,), text),
    ensures
        number >= 0 ==> number_in(text@) == Some(number as nat),
        number < 0 ==> text@.len() > 0 && text@[0] == '-' && number_in(text@.skip(1)) == Some(
            (-number) as nat,
        ),
{
    if number >= 0 {
        lemma_decimal(number as nat);
    } else {
        lemma_decimal((-number) as nat);
        reveal_strlit("-");
        assert(text@.skip(1) =~= decimal((-number) as nat));
    }
}

/// What trimming the start leaves is an end of the text, and only white space goes.
proof fn lemma_trimmed_start(text: Seq<char>) -> (start: int)
    ensures
        0 <= start <= text.len(),
        trimmed_start(text) == text.skip(start),
        forall|i: int| 0 <= i < start ==> white_space(#[trigger] text[i]),
        start < text.len() ==> !white_space(text[start]),
    decreases text.len(),
{
    if text.len() > 0 && white_space(text.first()) {
        let rest = lemma_trimmed_start(text.drop_first());
        assert(text.drop_first().skip(rest) =~= text.skip(rest + 1));
        assert forall|i: int| 0 <= i < rest + 1 implies white_space(#[trigger] text[i]) by {
            if i > 0 {
                assert(text[i] == text.drop_first()[i - 1]);
            }
        }
        rest + 1
    } else {
        assert(text.skip(0) =~= text);
        0
    }
}

/// What trimming the end leaves is a start of the text, and only white space goes.
proof fn lemma_trimmed_end(text: Seq<char>) -> (end: int)
    ensures
        0 <= end <= text.len(),
        trimmed_end(text) == text.take(end),
        forall|i: int| end <= i < text.len() ==> white_space(#[trigger] text[i]),
        end > 0 ==> !white_space(text[end - 1]),
    decreases text.len(),
{
    if text.len() > 0 && white_space(text.last()) {
        let end = lemma_trimmed_end(text.drop_last());
        assert(text.drop_last().take(end) =~= text.take(end));
        assert forall|i: int| end <= i < text.len() implies white_space(#[trigger] text[i]) by {
            if i < text.len() - 1 {
                assert(text[i] == text.drop_last()[i]);
            }
        }
        end
    } else {
        assert(text.take(text.len() as int) =~= text);
        text.len() as int
    }
}

/// Trimming takes white space from both ends, all of it and nothing else.
pub proof fn lemma_trimmed(text: &str, result: &str)
    requires
        call_ensures(trim, (text,), result),
    ensures
        exists|start: int, end: int|
            {
                &&& 0 <= start <= end <= text@.len()
                &&& result@ == #[trigger] text@.subrange(start, end)
                &&& forall|i: int|
                    0 <= i < start || end <= i < text@.len() ==> white_space(#[trigger] text@[i])
            },
        result@.len() > 0 ==> !white_space(result@[0]) && !white_space(
            result@[result@.len() - 1],
        ),
{
    let start = lemma_trimmed_start(text@);
    let middle = text@.skip(start);
    let end = lemma_trimmed_end(middle);
    assert(middle.take(end) =~= text@.subrange(start, start + end));
    assert forall|i: int| 0 <= i < start || start + end <= i < text@.len() implies white_space(
        #[trigger] text@[i],
    ) by {
        if i >= start {
            assert(text@[i] == middle[i - start]);
        }
    }
    if end > 0 {
        assert(middle[0] == text@[start]);
        assert(middle[end - 1] == text@[start + end - 1]);
    }
}

/// A text without white space at its ends is left alone, so trimming twice is trimming once.
pub proof fn lemma_trimmed_twice(text: &str, once: &str, twice: &str)
    requires
        call_ensures(trim, (text,), once),
        call_ensures(trim, (once,), twice),
    ensures
        twice@ == once@,
{
    lemma_trimmed(text, once);
    if once@.len() > 0 {
        assert(trimmed_start(once@) == once@);
        assert(trimmed_end(once@) == once@);
    }
}

/// A text that stands for a number has no white space at its ends.
pub proof fn lemma_number_is_trimmed(text: Seq<char>)
    requires
        number_in(text) is Some,
    ensures
        trimmed(text) == text,
{
    let digits = if text.len() > 0 && text[0] == '+' {
        text.skip(1)
    } else {
        text
    };
    assert(is_digit(digits[digits.len() - 1]));
    assert(text.last() == digits[digits.len() - 1]);
    if text[0] != '+' {
        assert(is_digit(digits[0]));
    }
}

/// A text is a name if both are as long and each character is that of the name, or the
/// ASCII capital of it.
pub proof fn lemma_names_match(text: &str, name: &str, yes: bool)
    requires
        call_ensures(is_name, (text, name), yes),
    ensures
        yes <==> {
            &&& text@.len() == name@.len()
            &&& forall|i: int|
                0 <= i < text@.len() ==> if 'A' <= (#[trigger] text@[i]) <= 'Z' {
                    name@[i] as int == text@[i] as int + 32
                } else {
                    name@[i] == text@[i]
                }
        },
{
    if yes {
        assert forall|i: int| 0 <= i < text@.len() implies if 'A' <= (#[trigger] text@[i]) <= 'Z' {
            name@[i] as int == text@[i] as int + 32
        } else {
            name@[i] == text@[i]
        } by {
            assert(lowered(text@)[i] == name@[i]);
        }
    } else if text@.len() == name@.len() && forall|i: int|
        0 <= i < text@.len() ==> if 'A' <= (#[trigger] text@[i]) <= 'Z' {
            name@[i] as int == text@[i] as int + 32
        } else {
            name@[i] == text@[i]
        } {
        assert(lowered(text@) =~= name@);
    }
}

} // verus!
