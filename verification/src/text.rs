//! Texts for messages.
use vstd::prelude::*;
use vstd::string::*;

verus! {

/// The text that `String::from_utf8_lossy` gives for bytes.
pub uninterp spec fn lossy_text(bytes: Seq<u8>) -> Seq<char>;

/// The text that the `Debug` form of a string gives: quoted, and with escapes.
pub uninterp spec fn quoted_text(text: Seq<char>) -> Seq<char>;

/// Calls `String::from_utf8_lossy`.
#[verifier::external_body]
pub(crate) fn from_utf8_lossy(bytes: &[u8]) -> (r: String)
    ensures
        r@ == lossy_text(bytes@),
{
    String::from_utf8_lossy(bytes).into_owned()
}

/// Formats a string with `{:?}`.
#[verifier::external_body]
pub(crate) fn quote(text: &str) -> (r: String)
    ensures
        r@ == quoted_text(text@),
{
    format!("{:?}", text)
}

/// The character of a decimal digit.
pub open spec fn digit_char(digit: int) -> char {
    (48 + digit) as char
}

/// A number in decimal notation.
pub open spec fn number_text(n: nat) -> Seq<char>
    decreases n,
{
    if n < 10 {
        seq![digit_char(n as int)]
    } else {
        number_text(n / 10).push(digit_char(n as int % 10))
    }
}

/// The text of a decimal digit.
fn digit_text(digit: u128) -> (r: &'static str)
    requires
        digit < 10,
    ensures
        r@ == seq![digit_char(digit as int)],
{
    proof {
        reveal_strlit("0");
        reveal_strlit("1");
        reveal_strlit("2");
        reveal_strlit("3");
        reveal_strlit("4");
        reveal_strlit("5");
        reveal_strlit("6");
        reveal_strlit("7");
        reveal_strlit("8");
        reveal_strlit("9");
    }
    let r = if digit == 0 {
        "0"
    } else if digit == 1 {
        "1"
    } else if digit == 2 {
        "2"
    } else if digit == 3 {
        "3"
    } else if digit == 4 {
        "4"
    } else if digit == 5 {
        "5"
    } else if digit == 6 {
        "6"
    } else if digit == 7 {
        "7"
    } else if digit == 8 {
        "8"
    } else {
        "9"
    };
    assert(r@ =~= seq![digit_char(digit as int)]);
    r
}

/// Appends a number in decimal notation.
pub fn append_number(text: &mut String, n: u128)
    ensures
        final(text)@ == old(text)@ + number_text(n as nat),
    decreases n,
{
    if n >= 10 {
        append_number(text, n / 10);
    }
    text.append(digit_text(n % 10));
    assert(text@ =~= old(text)@ + number_text(n as nat));
}

/// Whether a text reads like another one.
pub fn is_text(text: &String, other: &str) -> (r: bool)
    ensures
        r == (text@ == other@),
{
    let other: String = other.to_owned();
    *text == other
}

} // verus!
