//! Small text renderings used in reports.
use vstd::prelude::*;
use vstd::string::StringExecFns;
use vstd::utf8::{decode_utf8, valid_utf8};

verus! {

/// The decimal digit for `d`, which is below ten.
pub open spec fn digit_char(d: nat) -> char {
    ('0' as nat + d) as char
}

/// The decimal digits of `n`, most significant first, without leading zeros.
pub open spec fn decimal_digits(n: nat) -> Seq<char>
    decreases n,
{
    if n < 10 {
        seq![digit_char(n)]
    } else {
        decimal_digits(n / 10).push(digit_char(n % 10))
    }
}

/// `n` written in decimal, with a leading `-` when negative.
pub open spec fn signed_decimal(n: int) -> Seq<char> {
    if n < 0 {
        seq!['-'] + decimal_digits((-n) as nat)
    } else {
        decimal_digits(n as nat)
    }
}

/// The items of `items`, separated by `, `.
pub open spec fn comma_joined(items: Seq<Seq<char>>) -> Seq<char>
    decreases items.len(),
{
    if items.len() == 0 {
        Seq::empty()
    } else if items.len() == 1 {
        items[0]
    } else {
        comma_joined(items.drop_last()) + seq![',', ' '] + items.last()
    }
}

/// The bytes of `bytes` in list notation: `[104, 105]`.
pub open spec fn byte_list_text(bytes: Seq<u8>) -> Seq<char> {
    seq!['['] + comma_joined(bytes.map_values(|b: u8| decimal_digits(b as nat))) + seq![']']
}

/// Relies on `String`'s `FromIterator<&char>`: the string holds the given
/// characters in order.
#[verifier::external_body]
pub(crate) fn string_from_chars(chars: &Vec<char>) -> (r: String)
    ensures
        r@ == chars@,
{
    chars.iter().collect()
}

/// Relies on `std::str::from_utf8`: it accepts exactly the valid UTF-8
/// byte strings, and then yields the characters they encode.
#[verifier::external_body]
fn decode_utf8_bytes(bytes: &Vec<u8>) -> (r: Option<String>)
    ensures
        r is Some <==> valid_utf8(bytes@),
        r is Some ==> r->Some_0@ == decode_utf8(bytes@),
{
    match std::str::from_utf8(bytes) {
        Ok(s) => Some(s.to_string()),
        Err(_) => None,
    }
}

/// Appends the decimal digits of `n` to `out`.
fn push_decimal(out: &mut Vec<char>, n: u64)
    ensures
        final(out)@ == old(out)@ + decimal_digits(n as nat),
    decreases n,
{
    if n >= 10 {
        push_decimal(out, n / 10);
    }
    let d = (n % 10) as u32;
    let c = char_from_digit(d);
    out.push(c);
    proof {
        if n >= 10 {
            assert(decimal_digits(n as nat) == decimal_digits((n / 10) as nat).push(
                digit_char((n % 10) as nat),
            ));
        } else {
            assert(decimal_digits(n as nat) == seq![digit_char(n as nat)]);
        }
    }
    assert(final(out)@ =~= old(out)@ + decimal_digits(n as nat));
}

/// The character of the decimal digit `d`.
fn char_from_digit(d: u32) -> (c: char)
    requires
        d < 10,
    ensures
        c == digit_char(d as nat),
{
    let digits = ['0', '1', '2', '3', '4', '5', '6', '7', '8', '9'];
    let c = digits[d as usize];
    assert(c == digit_char(d as nat)) by {
        assert(digits@ =~= seq!['0', '1', '2', '3', '4', '5', '6', '7', '8', '9']);
    }
    c
}

/// The text of `bytes` when they are valid UTF-8; otherwise a note that
/// they are not, followed by the bytes in list notation.
pub fn to_utf8_or_raw(presumably_unicode: &Vec<u8>) -> (r: String)
    ensures
        valid_utf8(presumably_unicode@) ==> r@ == decode_utf8(presumably_unicode@),
        !valid_utf8(presumably_unicode@) ==> r@ == "Could not deserialize to unicode: "@
            + byte_list_text(presumably_unicode@),
{
    match decode_utf8_bytes(presumably_unicode) {
        Some(text) => text,
        None => {
            let mut listed: Vec<char> = Vec::new();
            listed.push('[');
            let n = presumably_unicode.len();
            let ghost items = presumably_unicode@.map_values(|b: u8| decimal_digits(b as nat));
            let mut i: usize = 0;
            while i < n
                invariant
                    n == presumably_unicode@.len(),
                    items == presumably_unicode@.map_values(|b: u8| decimal_digits(b as nat)),
                    i <= n,
                    listed@ == seq!['['] + comma_joined(items.take(i as int)),
                decreases n - i,
            {
                if i > 0 {
                    listed.push(',');
                    listed.push(' ');
                }
                push_decimal(&mut listed, presumably_unicode[i] as u64);
                proof {
                    let taken = items.take(i + 1);
                    assert(taken.drop_last() =~= items.take(i as int));
                    assert(taken.last() == decimal_digits(presumably_unicode@[i as int] as nat));
                    if i == 0 {
                        assert(taken =~= seq![taken[0]]);
                    }
                    assert(listed@ =~= seq!['['] + comma_joined(taken));
                }
                i = i + 1;
            }
            listed.push(']');
            assert(items.take(n as int) =~= items);
            let mut r = String::from_str("Could not deserialize to unicode: ");
            let tail = string_from_chars(&listed);
            r.append(tail.as_str());
            assert(listed@ =~= byte_list_text(presumably_unicode@));
            r
        },
    }
}

/// The strings of `list` in list notation: `[a, b]`, and `[]` for none.
pub fn stringlist_to_string(list: &[String]) -> (r: String)
    ensures
        r@ == seq!['['] + comma_joined(list@.map_values(|s: String| s@)) + seq![']'],
{
    let ghost items = list@.map_values(|s: String| s@);
    let mut r = String::from_str("[");
    proof {
        reveal_strlit("[");
    }
    let n = list.len();
    let mut i: usize = 0;
    while i < n
        invariant
            n == list@.len(),
            items == list@.map_values(|s: String| s@),
            i <= n,
            r@ == seq!['['] + comma_joined(items.take(i as int)),
        decreases n - i,
    {
        if i > 0 {
            r.append(", ");
            proof {
                reveal_strlit(", ");
            }
        }
        r.append(list[i].as_str());
        proof {
            let taken = items.take(i + 1);
            assert(taken.drop_last() =~= items.take(i as int));
            assert(r@ =~= seq!['['] + comma_joined(taken));
        }
        i = i + 1;
    }
    r.append("]");
    proof {
        reveal_strlit("]");
        assert(items.take(n as int) =~= items);
    }
    assert(r@ =~= seq!['['] + comma_joined(items) + seq![']']);
    r
}

/// The process id `parent` in decimal, or `None` when there is no parent.
pub fn parent_to_string(parent: Option<i32>) -> (r: String)
    ensures
        match parent {
            Some(pid) => r@ == signed_decimal(pid as int),
            None => r@ == "None"@,
        },
{
    match parent {
        Some(pid) => {
            let mut chars: Vec<char> = Vec::new();
            let magnitude: u64 = if pid < 0 {
                chars.push('-');
                (-(pid as i64)) as u64
            } else {
                pid as u64
            };
            push_decimal(&mut chars, magnitude);
            assert(chars@ =~= signed_decimal(pid as int));
            string_from_chars(&chars)
        },
        None => String::from_str("None"),
    }
}

} // verus!
