//! Character-level models of the numeric tokens that the canonical text
//! format uses, together with thin bridges between `String` and `Vec<char>`.

use vstd::assert_by_contradiction;
use vstd::prelude::*;

verus! {

/// True for the ten ASCII decimal digits.
pub open spec fn is_digit(c: char) -> bool {
    '0' <= c && c <= '9'
}

/// The digit character for a value below ten.
pub open spec fn digit_char(n: nat) -> char {
    if n == 0 {
        '0'
    } else if n == 1 {
        '1'
    } else if n == 2 {
        '2'
    } else if n == 3 {
        '3'
    } else if n == 4 {
        '4'
    } else if n == 5 {
        '5'
    } else if n == 6 {
        '6'
    } else if n == 7 {
        '7'
    } else if n == 8 {
        '8'
    } else {
        '9'
    }
}

/// The decimal numeral of a natural number: no sign, no leading zeros.
pub open spec fn dec_text(n: nat) -> Seq<char>
    decreases n,
{
    if n < 10 {
        seq![digit_char(n)]
    } else {
        dec_text(n / 10).push(digit_char(n % 10))
    }
}

/// The decimal numeral of an integer, with a leading minus sign when negative.
pub open spec fn int_text(i: int) -> Seq<char> {
    if i < 0 {
        seq!['-'] + dec_text((-i) as nat)
    } else {
        dec_text(i as nat)
    }
}

/// The characters that may occur in a numeric token.
pub open spec fn is_num_char(c: char) -> bool {
    is_digit(c) || c == '-' || c == '+' || c == '.' || c == 'e' || c == 'E'
}

/// Shape of the text carried by a non-integer number: a numeric token that
/// starts like a number and is not the canonical numeral of any `i64`.
pub open spec fn is_real_text(t: Seq<char>) -> bool {
    &&& t.len() >= 1
    &&& forall|k: int| 0 <= k < t.len() ==> is_num_char(#[trigger] t[k])
    &&& (is_digit(t[0]) || t[0] == '-')
    &&& !(exists|i: i64| t == int_text(i as int))
}

/// Relies on `i64`'s `Display` (via `to_string`): the plain decimal numeral
/// of the value, with a leading `-` for negatives and no leading zeros.
#[verifier::external_body]
pub fn int_to_string(i: i64) -> (r: String)
    ensures
        r@ == int_text(i as int),
{
    i.to_string()
}

/// Relies on `str::parse::<i64>`: it accepts the plain decimal numeral of
/// every `i64` and returns that value.
#[verifier::external_body]
pub fn parse_int_text(s: &str) -> (r: Option<i64>)
    ensures
        forall|i: i64| s@ == int_text(i as int) ==> r == Some(i),
{
    s.parse::<i64>().ok()
}

/// Relies on `str::chars`: the characters of the string, in order.
#[verifier::external_body]
pub fn chars_of(s: &str) -> (r: Vec<char>)
    ensures
        r@ == s@,
{
    s.chars().collect()
}

/// Relies on `String`'s `FromIterator` over `char`: the string made of
/// exactly those characters, in order.
#[verifier::external_body]
pub fn string_of(cs: &Vec<char>) -> (r: String)
    ensures
        r@ == cs@,
{
    cs.iter().collect()
}

/// Character-by-character equality of two buffers.
pub fn chars_eq(a: &Vec<char>, b: &Vec<char>) -> (r: bool)
    ensures
        r == (a@ == b@),
{
    if a.len() != b.len() {
        return false;
    }
    let mut k: usize = 0;
    while k < a.len()
        invariant
            k <= a@.len(),
            a@.len() == b@.len(),
            forall|j: int| 0 <= j < k ==> a@[j] == b@[j],
        decreases a@.len() - k,
    {
        if a[k] != b[k] {
            return false;
        }
        k += 1;
    }
    proof {
        assert(a@ =~= b@);
    }
    true
}

/// Decides whether `t` is the canonical decimal numeral of some `i64`.
pub fn is_canonical_int(t: &str) -> (r: bool)
    ensures
        r == exists|i: i64| t@ == int_text(i as int),
{
    match parse_int_text(t) {
        None => {
            proof {
                assert_by_contradiction!(!exists|i: i64| t@ == int_text(i as int), {
                    let i = choose|i: i64| t@ == int_text(i as int);
                });
            }
            false
        },
        Some(i) => {
            let canon = int_to_string(i);
            let ca = chars_of(canon.as_str());
            let ta = chars_of(t);
            let same = chars_eq(&ca, &ta);
            proof {
                if !same {
                    assert_by_contradiction!(!exists|j: i64| t@ == int_text(j as int), {
                        let j = choose|j: i64| t@ == int_text(j as int);
                    });
                }
            }
            same
        },
    }
}

} // verus!
