//! Exact decimal prices, kept as the text that the client sent.

use vstd::prelude::*;

use crate::error::{invalid_decimal_error, ApiError};

verus! {

/// Whether bigdecimal reads the text as a decimal number.
pub uninterp spec fn is_decimal_text(s: Seq<char>) -> bool;

/// Relies on `<bigdecimal::BigDecimal as FromStr>::from_str`: whether it
/// accepts the text, which depends on the text alone.
#[verifier::external_body]
fn decimal_parses(s: &str) -> (r: bool)
    ensures
        r == is_decimal_text(s@),
{
    <bigdecimal::BigDecimal as std::str::FromStr>::from_str(s).is_ok()
}

/// A price: a decimal number held as its exact text, so that it comes back
/// digit for digit as it was given.
pub struct Price {
    text: String,
}

impl View for Price {
    type V = Seq<char>;

    closed spec fn view(&self) -> Seq<char> {
        self.text@
    }
}

impl Price {
    #[verifier::type_invariant]
    spec fn inv(&self) -> bool {
        is_decimal_text(self.text@)
    }

    /// Reads a price; text that is no decimal number is rejected.
    pub fn parse(s: &str) -> (r: Result<Price, ApiError>)
        ensures
            is_decimal_text(s@) ==> r is Ok && r->Ok_0@ == s@,
            !is_decimal_text(s@) ==> r is Err && r->Err_0@ == invalid_decimal_error(s@),
    {
        if decimal_parses(s) {
            Ok(Price { text: String::from_str(s) })
        } else {
            Err(ApiError::invalid_decimal(s))
        }
    }

    /// The price's text, exactly as it was read.
    pub fn as_str(&self) -> (r: &str)
        ensures
            r@ == self@,
            is_decimal_text(r@),
    {
        proof {
            use_type_invariant(self);
        }
        self.text.as_str()
    }
}

} // verus!
