//! Where the service listens.
use vstd::prelude::*;

use crate::text::{
    char_vec, decimal, decimal_value, numbers_are_digits, parse_decimal, parsed_decimal, push_decimal,
};

verus! {

/// The host of the HTTP listener unless the environment names another.
pub const DEFAULT_HTTP_HOST: &'static str = "0.0.0.0";

/// The TCP port of the HTTP listener unless the environment names another.
pub const DEFAULT_HTTP_PORT: u16 = 80;

/// The host of the decrypt listener unless the environment names another.
pub const DEFAULT_DECRYPT_HOST: &'static str = "0.0.0.0";

/// The TCP port of the decrypt listener unless the environment names another.
pub const DEFAULT_DECRYPT_PORT: u16 = 10020;

/// A setting: the value of its variable, or `fallback` if that is not set or empty.
pub fn env_or(value: Option<String>, fallback: &str) -> (r: String)
    ensures
        r@ == match value {
            Some(v) => if v@.len() > 0 {
                v@
            } else {
                fallback@
            },
            None => fallback@,
        },
{
    match value {
        Some(v) => if v.as_str().is_empty() {
            fallback.to_owned()
        } else {
            v
        },
        None => fallback.to_owned(),
    }
}

/// The port number that a variable sets: a decimal number from 1 to 65535.
pub open spec fn port_setting(value: Option<Seq<char>>) -> Option<nat> {
    match value {
        Some(text) => match parsed_decimal(text, u16::MAX as nat) {
            Some(n) => if n > 0 {
                Some(n)
            } else {
                None
            },
            None => None,
        },
        None => None,
    }
}

/// A numeric setting: the value of its variable, or `fallback` if that sets no number or zero.
pub fn env_u16(value: Option<String>, fallback: u16) -> (r: u16)
    ensures
        r == match port_setting(
            match value {
                Some(v) => Some(v@),
                None => None,
            },
        ) {
            Some(n) => n,
            None => fallback as nat,
        },
{
    match value {
        Some(v) => {
            let chars: Vec<char> = char_vec(v.as_str());
            match parse_decimal(chars.as_slice(), u16::MAX as usize) {
                Some(n) => if n > 0 {
                    n as u16
                } else {
                    fallback
                },
                None => fallback,
            }
        },
        None => fallback,
    }
}

/// The address to listen on: host and port with a colon between them.
pub fn listen_address(host: &str, port: u16) -> (r: String)
    ensures
        r@ == host@ + seq![':'] + decimal(port as nat),
{
    let mut r: String = host.to_owned();
    r.append(":");
    push_decimal(&mut r, port as usize);
    proof {
        reveal_strlit(":");
        assert(":"@ =~= seq![':']);
    }
    r
}

/// A variable sets a port exactly if it is decimal digits, with a plus sign before them or not,
/// and their number is from 1 to 65535; then it sets that number.
pub proof fn ports_are_numbers(digits: Seq<char>)
    requires
        digits.len() > 0 ==> digits[0] != '+',
    ensures
        ({
            let number = digits.len() > 0 && forall|i: int|
                0 <= i < digits.len() ==> 48 <= #[trigger] digits[i] as int <= 57;
            &&& number && 1 <= decimal_value(digits) <= 65535 ==> port_setting(Some(digits)) == Some(
                decimal_value(digits),
            )
            &&& !(number && 1 <= decimal_value(digits) <= 65535) ==> port_setting(
                Some(digits),
            ) is None
            &&& port_setting(Some(seq!['+'] + digits)) == port_setting(Some(digits))
            &&& port_setting(None) is None
        }),
{
    numbers_are_digits(digits);
}

} // verus!
