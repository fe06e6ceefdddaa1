//! Colours written as text: `#RGB` and `#RRGGBB`.

use vstd::prelude::*;
use vstd::string::*;
use vstd::std_specs::iter::IteratorSpec;
use crate::colour::Rgb;

verus! {

/// The value of a hexadecimal digit, in either case; `None` for any other
/// character.
pub open spec fn hex_digit(c: char) -> Option<nat> {
    if '0' <= c && c <= '9' {
        Some((c as u32 - '0' as u32) as nat)
    } else if 'a' <= c && c <= 'f' {
        Some((c as u32 - 'a' as u32 + 10) as nat)
    } else if 'A' <= c && c <= 'F' {
        Some((c as u32 - 'A' as u32 + 10) as nat)
    } else {
        None
    }
}

/// The number that a run of hexadecimal digits writes, the most significant
/// digit first; `None` where one of the characters is no such digit.
pub open spec fn hex_number(digits: Seq<char>) -> Option<nat>
    decreases digits.len(),
{
    if digits.len() == 0 {
        Some(0)
    } else {
        match (hex_number(digits.drop_last()), hex_digit(digits.last())) {
            (Some(high), Some(low)) => Some(16 * high + low),
            _ => None,
        }
    }
}

/// The digits of a text: what follows one leading `+`, if more follows it,
/// else the whole text.
pub open spec fn unsigned_part(text: Seq<char>) -> Seq<char> {
    if text.len() > 1 && text[0] == '+' {
        text.drop_first()
    } else {
        text
    }
}

/// The octet that a text writes in base 16: an optional `+`, then one or
/// more hexadecimal digits whose number is at most 255. Any other text writes
/// none.
pub open spec fn hex_octet(text: Seq<char>) -> Option<u8> {
    let digits = unsigned_part(text);
    if digits.len() == 0 {
        None
    } else {
        match hex_number(digits) {
            Some(n) => if n <= 255 {
                Some(n as u8)
            } else {
                None
            },
            None => None,
        }
    }
}

/// The octet that a text writes, and 0 where it writes none.
pub open spec fn octet_or_zero(text: Seq<char>) -> u8 {
    match hex_octet(text) {
        Some(value) => value,
        None => 0,
    }
}

/// A run of digits with a prefix that writes no number writes none itself,
/// and the number that a run writes is at least that of each of its prefixes.
pub proof fn lemma_hex_number_grows(digits: Seq<char>, k: int)
    requires
        0 <= k <= digits.len(),
    ensures
        hex_number(digits.take(k)) is None ==> hex_number(digits) is None,
        hex_number(digits) matches Some(n) ==> hex_number(digits.take(k)) matches Some(m) && m
            <= n,
    decreases digits.len() - k,
{
    if k == digits.len() {
        assert(digits.take(k) =~= digits);
    } else {
        assert(digits.drop_last().take(k) =~= digits.take(k));
        lemma_hex_number_grows(digits.drop_last(), k);
    }
}

/// Reads one hexadecimal digit.
fn digit_value(c: char) -> (value: Option<u8>)
    ensures
        match value {
            Some(d) => hex_digit(c) == Some(d as nat),
            None => hex_digit(c) is None,
        },
{
    if c >= '0' && c <= '9' {
        Some(c as u8 - 48)
    } else if c >= 'a' && c <= 'f' {
        Some(c as u8 - 87)
    } else if c >= 'A' && c <= 'F' {
        Some(c as u8 - 55)
    } else {
        None
    }
}

/// Converts an octet from hexadecimal text to its value. A text that writes
/// no octet gives 0.
pub fn hex_to_decimal(hex_string: &str) -> (value: u8)
    ensures
        value == octet_or_zero(hex_string@),
{
    broadcast use group_string_axioms;

    let mut rest = hex_string.chars();
    let first = rest.next();
    let mut current: Option<char> = first;
    match first {
        Some(c) => {
            if c == '+' {
                let second = rest.next();
                if second.is_none() {
                    return 0;
                }
                current = second;
            }
        },
        None => {
            return 0;
        },
    }
    let ghost digits = unsigned_part(hex_string@);
    let ghost mut taken: int = 0;
    let mut number: u32 = 0;
    loop
        invariant
            0 <= taken <= digits.len(),
            digits.len() > 0,
            digits == unsigned_part(hex_string@),
            match current {
                Some(c) => taken < digits.len() && c == digits[taken] && rest.remaining()
                    == digits.subrange(taken + 1, digits.len() as int),
                None => taken == digits.len(),
            },
            hex_number(digits.take(taken)) == Some(number as nat),
            number <= 255,
        ensures
            taken == digits.len(),
        decreases digits.len() - taken,
    {
        match current {
            None => {
                break ;
            },
            Some(c) => {
                proof {
                    assert(digits.take(taken + 1).drop_last() =~= digits.take(taken));
                    lemma_hex_number_grows(digits, taken + 1);
                }
                match digit_value(c) {
                    None => {
                        return 0;
                    },
                    Some(d) => {
                        number = 16 * number + d as u32;
                        if number > 255 {
                            return 0;
                        }
                    },
                }
                current = rest.next();
                proof {
                    taken = taken + 1;
                }
            },
        }
    }
    proof {
        assert(digits.take(taken) =~= digits);
    }
    number as u8
}

/// The long form of a short colour text: `#`, then each of the three digits
/// twice.
pub open spec fn long_form(text: Seq<char>) -> Seq<char> {
    seq!['#', text[1], text[1], text[2], text[2], text[3], text[3]]
}

/// The colour that a text of seven characters writes: its first character is
/// skipped and each following pair is one channel. A pair that writes no
/// octet gives a channel of 0.
pub open spec fn rgb_of_long(text: Seq<char>) -> Rgb {
    Rgb {
        r: octet_or_zero(text.subrange(1, 3)),
        g: octet_or_zero(text.subrange(3, 5)),
        b: octet_or_zero(text.subrange(5, 7)),
    }
}

/// The colour that a text of four or of seven characters writes.
pub open spec fn rgb_of_hex(text: Seq<char>) -> Rgb {
    if text.len() == 4 {
        rgb_of_long(long_form(text))
    } else {
        rgb_of_long(text)
    }
}

/// Converts a colour written as `#RGB` or `#RRGGBB`.
///
/// The text must have four or seven characters. The short form stands for
/// the long form in which each digit is doubled.
pub fn get_rgb_from_hex(hex_string: &str) -> (colour: Rgb)
    requires
        hex_string@.len() == 4 || hex_string@.len() == 7,
    ensures
        colour == rgb_of_hex(hex_string@),
    decreases 7 - hex_string@.len(),
{
    let length: usize = hex_string.unicode_len();
    if length == 7 {
        let r = hex_to_decimal(hex_string.substring_char(1, 3));
        let g = hex_to_decimal(hex_string.substring_char(3, 5));
        let b = hex_to_decimal(hex_string.substring_char(5, 7));
        Rgb::new(r, g, b)
    } else {
        let r_hex = hex_string.substring_char(1, 2);
        let g_hex = hex_string.substring_char(2, 3);
        let b_hex = hex_string.substring_char(3, 4);
        let mut long_format_hex = String::from_str("#");
        long_format_hex.append(r_hex);
        long_format_hex.append(r_hex);
        long_format_hex.append(g_hex);
        long_format_hex.append(g_hex);
        long_format_hex.append(b_hex);
        long_format_hex.append(b_hex);
        proof {
            reveal_strlit("#");
            assert(long_format_hex@ =~= long_form(hex_string@));
        }
        get_rgb_from_hex(long_format_hex.as_str())
    }
}

/// What a pair of characters writes as a channel: sixteen times the first
/// digit plus the second. After a `+` the second digit stands alone. Where
/// either is no digit, the channel is 0.
pub proof fn lemma_octet_of_pair(high: char, low: char)
    ensures
        octet_or_zero(seq![high, low]) == (if high == '+' {
            match hex_digit(low) {
                Some(l) => l,
                None => 0,
            }
        } else {
            match (hex_digit(high), hex_digit(low)) {
                (Some(h), Some(l)) => 16 * h + l,
                _ => 0,
            }
        }),
{
    let pair = seq![high, low];
    let one = seq![low];
    let head = seq![high];
    assert(one.drop_last() =~= Seq::<char>::empty());
    assert(head.drop_last() =~= Seq::<char>::empty());
    assert(pair.drop_last() =~= head);
    assert(pair.drop_first() =~= one);
    assert(hex_number(Seq::<char>::empty()) == Some(0nat));
    assert(hex_number(one) == match hex_digit(low) {
        Some(l) => Some(l),
        None => None,
    });
    assert(hex_number(head) == match hex_digit(high) {
        Some(h) => Some(h),
        None => None,
    });
    assert(hex_digit('+') is None);
}

/// A digit of the short form gives seventeen times its value, and a
/// character that is no digit gives 0.
pub proof fn lemma_short_form_channels(text: Seq<char>)
    requires
        text.len() == 4,
    ensures
        rgb_of_hex(text).r == (match hex_digit(text[1]) {
            Some(d) => 17 * d,
            None => 0,
        }),
        rgb_of_hex(text).g == (match hex_digit(text[2]) {
            Some(d) => 17 * d,
            None => 0,
        }),
        rgb_of_hex(text).b == (match hex_digit(text[3]) {
            Some(d) => 17 * d,
            None => 0,
        }),
{
    let long = long_form(text);
    assert(long.subrange(1, 3) =~= seq![text[1], text[1]]);
    assert(long.subrange(3, 5) =~= seq![text[2], text[2]]);
    assert(long.subrange(5, 7) =~= seq![text[3], text[3]]);
    lemma_octet_of_pair(text[1], text[1]);
    lemma_octet_of_pair(text[2], text[2]);
    lemma_octet_of_pair(text[3], text[3]);
    assert(hex_digit('+') is None);
}

} // verus!
