//! Errors that the library's own checks report.
use vstd::prelude::*;

use crate::text::string_of;

verus! {

/// A rejected runtime descriptor, a missing capability, a bad credential,
/// an invalid operation event, or a request that the Agent refused.
#[derive(Debug)]
pub enum Error {
    /// The runtime descriptor is invalid.
    InvalidDescriptor(String),
    /// The Agent did not grant the named capability.
    CapabilityDenied(String),
    /// The instance credential is unusable.
    InvalidCredential(String),
    /// The operation event breaks a public constraint of the Agent API.
    InvalidEvent(String),
    /// The Agent answered with a non-success HTTP status.
    Agent { status: u16, message: String },
}

/// The result type of the library.
pub type Result<T> = core::result::Result<T, Error>;

/// The decimal digit for `d` (below 10).
pub open spec fn digit_char(d: nat) -> char {
    ((d + 48) as u32) as char
}

/// The decimal numeral of `n`, without leading zeros.
pub open spec fn decimal(n: nat) -> Seq<char>
    decreases n,
{
    if n < 10 {
        seq![digit_char(n)]
    } else {
        decimal(n / 10) + seq![digit_char(n % 10)]
    }
}

/// The text that describes an error.
pub open spec fn error_text(e: Error) -> Seq<char> {
    match e {
        Error::InvalidDescriptor(s) => "runtime descriptor is invalid: "@ + s@,
        Error::CapabilityDenied(s) => "runtime capability is not granted: "@ + s@,
        Error::InvalidCredential(s) => "runtime credential is invalid: "@ + s@,
        Error::InvalidEvent(s) => "operation event is invalid: "@ + s@,
        Error::Agent { status, message } => "Agent rejected the request with HTTP "@ + decimal(
            status as nat,
        ) + ": "@ + message@,
    }
}

/// The decimal numeral of `n`.
pub fn decimal_string(n: u16) -> (r: String)
    ensures
        r@ == decimal(n as nat),
{
    let mut digits: Vec<char> = Vec::new();
    let mut m: u16 = n;
    // digits holds the numeral of the part of n already consumed, last digit first.
    while m >= 10
        invariant
            decimal(n as nat) == decimal(m as nat) + digits@.reverse(),
        decreases m,
    {
        let d = m % 10;
        let c = ((d as u8) + 48) as char;
        assert(c == digit_char(d as nat));
        assert(decimal(m as nat) == decimal((m / 10) as nat) + seq![digit_char(d as nat)]);
        assert(digits@.push(c).reverse() =~= seq![c] + digits@.reverse());
        digits.push(c);
        m = m / 10;
    }
    let c = ((m as u8) + 48) as char;
    assert(c == digit_char(m as nat));
    digits.push(c);
    assert(digits@.reverse() =~= seq![c] + digits@.drop_last().reverse());
    let mut out: Vec<char> = Vec::new();
    let mut i = digits.len();
    while i > 0
        invariant
            i <= digits.len(),
            out@ == digits@.subrange(i as int, digits@.len() as int).reverse(),
        decreases i,
    {
        i = i - 1;
        out.push(digits[i]);
        assert(digits@.subrange(i as int, digits@.len() as int).reverse() =~= digits@.subrange(
            i + 1,
            digits@.len() as int,
        ).reverse().push(digits@[i as int]));
    }
    assert(digits@.subrange(0, digits@.len() as int) =~= digits@);
    string_of(&out, 0, out.len())
}

impl Error {
    /// The text that describes the error (what `Display` shows).
    pub fn message(&self) -> (r: String)
        ensures
            r@ == error_text(*self),
    {
        let (mut text, detail) = match self {
            Error::InvalidDescriptor(s) => ("runtime descriptor is invalid: ".to_owned(), s),
            Error::CapabilityDenied(s) => ("runtime capability is not granted: ".to_owned(), s),
            Error::InvalidCredential(s) => ("runtime credential is invalid: ".to_owned(), s),
            Error::InvalidEvent(s) => ("operation event is invalid: ".to_owned(), s),
            Error::Agent { status, message } => {
                let mut t = "Agent rejected the request with HTTP ".to_owned();
                t.append(decimal_string(*status).as_str());
                t.append(": ");
                (t, message)
            },
        };
        text.append(detail.as_str());
        text
    }
}

} // verus!
