//! Recoverable outcomes: parsing numbers from text and converting between
//! optional values and results that carry a cause.

use vstd::prelude::*;
use vstd::string::*;
use std::num::ParseIntError;

verus! {

/// The error of the standard library's integer parsing. Nothing is known of
/// what a value of it holds.
#[verifier::external_type_specification]
#[verifier::external_body]
pub struct ExParseIntError(ParseIntError);

/// True for the ten ASCII digits.
pub open spec fn is_decimal_digit(c: char) -> bool {
    '0' as u32 <= c as u32 && c as u32 <= '9' as u32
}

/// The number that a sequence of digits denotes in base ten.
pub open spec fn digits_value(digits: Seq<char>) -> int
    decreases digits.len(),
{
    if digits.len() == 0 {
        0
    } else {
        digits_value(digits.drop_last()) * 10 + (digits.last() as u32 - '0' as u32)
    }
}

/// The 32-bit signed integer that a text denotes: an optional `+` or `-`,
/// then one or more ASCII digits and nothing else, with a value in range.
/// `None` for every other text.
pub open spec fn decimal_i32(text: Seq<char>) -> Option<i32> {
    let signed = text.len() > 0 && (text[0] == '-' || text[0] == '+');
    let digits = if signed {
        text.skip(1)
    } else {
        text
    };
    let value = if text.len() > 0 && text[0] == '-' {
        -digits_value(digits)
    } else {
        digits_value(digits)
    };
    if digits.len() > 0 && (forall|i: int|
        0 <= i < digits.len() ==> is_decimal_digit(#[trigger] digits[i])) && i32::MIN <= value
        <= i32::MAX {
        Some(value as i32)
    } else {
        None
    }
}

/// The text that precedes the cause in a reported parse failure.
pub open spec fn failure_prefix() -> Seq<char> {
    "Parse error: "@
}

/// Calls `str::parse::<i32>`. The standard library accepts an optional sign
/// followed by ASCII digits only, and fails on an empty text, on any other
/// character and on a value out of range; the contract says so through
/// `decimal_i32`. Nothing is claimed of the error but that it comes exactly
/// when the text denotes no number.
#[verifier::external_body]
fn parse_i32(text: &str) -> (r: Result<i32, ParseIntError>)
    ensures
        match decimal_i32(text@) {
            Some(n) => r == Ok::<i32, ParseIntError>(n),
            None => r is Err,
        },
{
    text.parse::<i32>()
}

/// Puts the failure prefix before the message of a cause.
pub fn describe_failure(message: &str) -> (r: String)
    ensures
        r@ == failure_prefix() + message@,
{
    "Parse error: ".to_owned().concat(message)
}

/// Parses a number and doubles it. A text that denotes no number gives the
/// error of the parse.
pub fn parse_and_double(s: &str) -> (r: Result<i32, ParseIntError>)
    requires
        decimal_i32(s@) matches Some(n) ==> i32::MIN <= 2 * n <= i32::MAX,
    ensures
        match decimal_i32(s@) {
            Some(n) => r == Ok::<i32, ParseIntError>((2 * n) as i32),
            None => r is Err,
        },
{
    match parse_i32(s) {
        Ok(n) => Ok(n * 2),
        Err(e) => Err(e),
    }
}

/// Parses a number and adds ten to it. A text that denotes no number gives
/// a message: the failure prefix, then the message of the parse error.
pub fn parse_with_custom_error(s: &str) -> (r: Result<i32, String>)
    requires
        decimal_i32(s@) matches Some(n) ==> n + 10 <= i32::MAX,
    ensures
        match decimal_i32(s@) {
            Some(n) => r == Ok::<i32, String>((n + 10) as i32),
            None => r matches Err(m) && failure_prefix().is_prefix_of(m@),
        },
{
    match parse_i32(s) {
        Ok(n) => Ok(n + 10),
        Err(e) => {
            let message = e.to_string();
            Err(describe_failure(message.as_str()))
        },
    }
}

/// Looks up a configuration value: the key `username` has the value
/// `admin`, and no other key is known.
pub fn get_config_value(key: &str) -> (r: Result<String, String>)
    ensures
        key@ == "username"@ ==> (r matches Ok(v) && v@ == "admin"@),
        key@ != "username"@ ==> (r matches Err(m) && m@ == "Key not found"@),
{
    if key.to_owned() == "username".to_owned() {
        Ok("admin".to_owned())
    } else {
        Err("Key not found".to_owned())
    }
}

/// Parses two numbers and adds them. If either text denotes no number the
/// result is the error of the first one that does not.
pub fn process_two_numbers(a: &str, b: &str) -> (r: Result<i32, ParseIntError>)
    requires
        decimal_i32(a@) is Some && decimal_i32(b@) is Some ==> i32::MIN <= decimal_i32(a@)->0
            + decimal_i32(b@)->0 <= i32::MAX,
    ensures
        decimal_i32(a@) is Some && decimal_i32(b@) is Some ==> r == Ok::<i32, ParseIntError>(
            (decimal_i32(a@)->0 + decimal_i32(b@)->0) as i32,
        ),
        decimal_i32(a@) is None || decimal_i32(b@) is None ==> r is Err,
{
    let num_a = match parse_i32(a) {
        Ok(n) => n,
        Err(e) => {
            return Err(e);
        },
    };
    let num_b = match parse_i32(b) {
        Ok(n) => n,
        Err(e) => {
            return Err(e);
        },
    };
    Ok(num_a + num_b)
}

/// The number of a successful outcome, and zero for a failed one.
pub fn handle_result_with_match(value: Result<i32, String>) -> (n: i32)
    ensures
        n == match value {
            Ok(v) => v,
            Err(_) => 0i32,
        },
{
    match value {
        Ok(n) => n,
        Err(_) => 0,
    }
}

/// Keeps the value of a successful outcome and forgets the cause of a
/// failed one.
pub fn result_to_option(r: Result<i32, String>) -> (o: Option<i32>)
    ensures
        o == match r {
            Ok(n) => Some(n),
            Err(_) => None::<i32>,
        },
{
    r.ok()
}

/// Turns a present value into a successful outcome and an absent one into
/// a failure with the message `Value was None`.
pub fn option_to_result(o: Option<i32>) -> (r: Result<i32, String>)
    ensures
        match o {
            Some(n) => r == Ok::<i32, String>(n),
            None => r matches Err(m) && m@ == "Value was None"@,
        },
{
    match o {
        Some(n) => Ok(n),
        None => Err("Value was None".to_owned()),
    }
}

/// Parses a number where a text is present. No text gives no number; a
/// text that denotes no number gives the error of the parse.
pub fn parse_optional_number(s: Option<&str>) -> (r: Result<Option<i32>, ParseIntError>)
    ensures
        match s {
            None => r == Ok::<Option<i32>, ParseIntError>(None),
            Some(text) => match decimal_i32(text@) {
                Some(n) => r == Ok::<Option<i32>, ParseIntError>(Some(n)),
                None => r is Err,
            },
        },
{
    match s {
        None => Ok(None),
        Some(text) => match parse_i32(text) {
            Ok(n) => Ok(Some(n)),
            Err(e) => Err(e),
        },
    }
}

} // verus!
