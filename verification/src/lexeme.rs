//! The text of single tokens: how an integer is written, what a decimal
//! literal is worth, and which names can bind a range variable.
//!
//! Reading and writing literals is left to `proc-macro2` and `syn`, so that a
//! token means here what it means to the compiler. What the crate takes on
//! trust stands in this file: the three calls into those crates, and one
//! method of `String`.

use vstd::prelude::*;
use vstd::string::StrSliceExecFns;
use crate::token::{Token, TokenModel};

verus! {

/// The character of the decimal digit `d`.
pub open spec fn digit(d: int) -> char
    recommends
        0 <= d < 10,
{
    (48 + d) as char
}

/// The decimal digits of `n`, most significant first, with no leading zero.
pub open spec fn decimal_digits(n: nat) -> Seq<char>
    decreases n,
{
    if n < 10 {
        seq![digit(n as int)]
    } else {
        decimal_digits(n / 10).push(digit((n % 10) as int))
    }
}

/// How an integer is written: its decimal digits, after `-` when negative.
pub open spec fn decimal_text(value: int) -> Seq<char> {
    if value < 0 {
        seq!['-'] + decimal_digits((-value) as nat)
    } else {
        decimal_digits(value as nat)
    }
}

/// Whether `symbol` is one of the digits `0` to `9`.
pub open spec fn is_digit(symbol: char) -> bool {
    '0' <= symbol <= '9'
}

/// Whether `text` is one decimal digit or more, and nothing else.
pub open spec fn is_digits(text: Seq<char>) -> bool {
    text.len() > 0 && forall|i: int| 0 <= i < text.len() ==> is_digit(#[trigger] text[i])
}

/// Whether `text` is a well-formed integer in base 10: decimal digits, after
/// at most one `-`.
pub open spec fn is_decimal(text: Seq<char>) -> bool {
    is_digits(text) || (text.len() > 0 && text[0] == '-' && is_digits(text.drop_first()))
}

/// The number that the decimal digits `text` spell.
pub open spec fn digits_value(text: Seq<char>) -> nat
    decreases text.len(),
{
    if text.len() == 0 {
        0
    } else {
        digits_value(text.drop_last()) * 10 + (text.last() as nat - 48) as nat
    }
}

/// The integer that the decimal text `text` spells.
pub open spec fn decimal_value(text: Seq<char>) -> int {
    if text.len() > 0 && text[0] == '-' {
        -(digits_value(text.drop_first()) as int)
    } else {
        digits_value(text) as int
    }
}

/// What `text` is worth as a range bound: the integer it spells in base 10,
/// where it spells one that fits 32 bits.
pub open spec fn bound_of(text: Seq<char>) -> Option<i32> {
    if is_decimal(text) && i32::MIN <= decimal_value(text) <= i32::MAX {
        Some(decimal_value(text) as i32)
    } else {
        None
    }
}

/// Whether `name` can stand as the variable of a range: an identifier that is
/// no keyword.
pub uninterp spec fn binds(name: Seq<char>) -> bool;

/// The text of the literal that `proc_macro2::Literal::i32_unsuffixed` makes
/// of `value`. Trusted: the literal is written in decimal, without a suffix,
/// with a leading `-` for a negative value.
#[verifier::external_body]
fn unsuffixed_text(value: i32) -> (text: String)
    ensures
        text@ == decimal_text(value as int),
{
    proc_macro2::Literal::i32_unsuffixed(value).to_string()
}

/// Reads `text` with `syn::parse_str` as a `syn::LitInt` and takes
/// `LitInt::base10_parse::<i32>` of it. Trusted, for a text of decimal
/// digits after at most one `-`: the literal is read in base 10, and the
/// result is its value where that fits 32 bits, else `None`. Other texts are
/// kept away, since `syn` panics on some literals that it does not know.
#[verifier::external_body]
fn read_integer_literal(text: &str) -> (value: Option<i32>)
    requires
        is_decimal(text@),
    ensures
        value == bound_of(text@),
{
    match syn::parse_str::<syn::LitInt>(text) {
        Ok(literal) => match literal.base10_parse::<i32>() {
            Ok(value) => Some(value),
            Err(_) => None,
        },
        Err(_) => None,
    }
}

/// Asks `syn::parse_str` whether `name` is a `syn::Ident`. Trusted: the
/// answer depends on the text alone.
#[verifier::external_body]
pub(crate) fn read_binder(name: &str) -> (accepted: bool)
    ensures
        accepted == binds(name@),
{
    syn::parse_str::<syn::Ident>(name).is_ok()
}

/// `String::push` of the standard library. Trusted: it appends `symbol` and
/// changes nothing else.
pub assume_specification[ String::push ](text: &mut String, symbol: char)
    ensures
        final(text)@ == old(text)@.push(symbol),
;

/// Whether `text` is decimal digits after at most one `-`.
fn check_decimal(text: &str) -> (decimal: bool)
    ensures
        decimal == is_decimal(text@),
{
    let len = text.unicode_len();
    if len == 0 {
        return false;
    }
    let start: usize = if text.get_char(0) == '-' {
        1
    } else {
        0
    };
    if start == len {
        return false;
    }
    let mut i: usize = start;
    while i < len
        invariant
            start <= i <= len,
            len == text@.len(),
            start == 0 || start == 1,
            (start == 1) == (text@[0] == '-'),
            forall|k: int| start <= k < i ==> is_digit(#[trigger] text@[k]),
        decreases len - i,
    {
        let symbol = text.get_char(i);
        if !('0' <= symbol && symbol <= '9') {
            assert(!is_digit(text@[i as int]));
            assert(start == 1 ==> !is_digit(text@[0]));
            assert(start == 1 ==> text@.drop_first()[i - 1] == text@[i as int]);
            return false;
        }
        i += 1;
    }
    assert(start == 1 ==> is_digits(text@.drop_first())) by {
        if start == 1 {
            assert forall|k: int| 0 <= k < text@.drop_first().len() implies is_digit(
                #[trigger] text@.drop_first()[k],
            ) by {
                assert(text@.drop_first()[k] == text@[k + 1]);
            }
        }
    }
    true
}

/// What `text` is worth as a range bound: its value where it is a
/// well-formed integer in base 10 that fits 32 bits.
pub fn literal_value(text: &str) -> (value: Option<i32>)
    ensures
        value == bound_of(text@),
{
    if check_decimal(text) {
        read_integer_literal(text)
    } else {
        None
    }
}

/// The literal token that stands for `value` in expanded output.
pub fn literal_token(value: i32) -> (token: Token)
    ensures
        token@ == TokenModel::Literal(decimal_text(value as int)),
{
    Token::Literal(unsuffixed_text(value))
}

/// The digits written for a number are decimal digits, and spell it.
proof fn lemma_digits_round_trip(n: nat)
    ensures
        is_digits(decimal_digits(n)),
        digits_value(decimal_digits(n)) == n,
    decreases n,
{
    let text = decimal_digits(n);
    if n < 10 {
        assert(text.drop_last() =~= Seq::<char>::empty());
        assert(digits_value(text.drop_last()) == 0);
        assert(text.last() == digit(n as int));
    } else {
        lemma_digits_round_trip(n / 10);
        assert(text.drop_last() =~= decimal_digits(n / 10));
        assert(text.last() == digit((n % 10) as int));
        assert forall|i: int| 0 <= i < text.len() implies is_digit(#[trigger] text[i]) by {
            if i < text.len() - 1 {
                assert(text[i] == decimal_digits(n / 10)[i]);
            }
        }
    }
}

/// The text that is written for a value reads back as that value: what
/// an expansion puts out for a value of the range is itself a bound.
pub proof fn law_written_values_read_back(value: i32)
    ensures
        bound_of(decimal_text(value as int)) == Some(value),
{
    let text = decimal_text(value as int);
    if value < 0 {
        lemma_digits_round_trip((-value) as nat);
        assert(text.drop_first() =~= decimal_digits((-value) as nat));
    } else {
        lemma_digits_round_trip(value as nat);
        assert(is_digit(text[0]));
    }
}

} // verus!
