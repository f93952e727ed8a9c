//! The error value that every layer of the service returns.

use vstd::prelude::*;

verus! {

/// Status of a request whose parameters or body are malformed.
pub const BAD_REQUEST: u16 = 400;

/// Status of a request for a record that does not exist.
pub const NOT_FOUND: u16 = 404;

/// Status of a failure inside the storage layer.
pub const INTERNAL_ERROR: u16 = 500;

/// A failure carrying the HTTP status it maps to and a readable message.
pub struct ApiError {
    pub status: u16,
    pub message: String,
}

/// The mathematical content of an [`ApiError`].
pub struct ApiErrorView {
    pub status: u16,
    pub message: Seq<char>,
}

impl View for ApiError {
    type V = ApiErrorView;

    open spec fn view(&self) -> ApiErrorView {
        ApiErrorView { status: self.status, message: self.message@ }
    }
}

pub open spec fn invalid_integer_error(s: Seq<char>) -> ApiErrorView {
    ApiErrorView {
        status: BAD_REQUEST,
        message: "Error parsing string: '"@ + s + "', not a valid integer"@,
    }
}

pub open spec fn invalid_decimal_error(s: Seq<char>) -> ApiErrorView {
    ApiErrorView {
        status: BAD_REQUEST,
        message: "Error parsing string: '"@ + s + "', not a valid decimal"@,
    }
}

pub open spec fn unknown_parameter_error(key: Seq<char>) -> ApiErrorView {
    ApiErrorView {
        status: BAD_REQUEST,
        message: "the parameter '"@ + key + "' is incorrect"@,
    }
}

pub open spec fn id_xor_ids_error() -> ApiErrorView {
    ApiErrorView { status: BAD_REQUEST, message: "select only one of them, id xor ids"@ }
}

pub open spec fn not_found_error() -> ApiErrorView {
    ApiErrorView { status: NOT_FOUND, message: "record not found"@ }
}

pub open spec fn storage_error(message: Seq<char>) -> ApiErrorView {
    ApiErrorView { status: INTERNAL_ERROR, message }
}

/// `prefix + middle + suffix` as a new string.
fn enclose(prefix: &str, middle: &str, suffix: &str) -> (r: String)
    ensures
        r@ == prefix@ + middle@ + suffix@,
{
    let mut r = String::from_str(prefix);
    r.append(middle);
    r.append(suffix);
    r
}

impl ApiError {
    pub fn new(status: u16, message: String) -> (r: ApiError)
        ensures
            r.status == status,
            r.message@ == message@,
    {
        ApiError { status, message }
    }

    /// The text did not parse as an integer.
    pub fn invalid_integer(s: &str) -> (r: ApiError)
        ensures
            r@ == invalid_integer_error(s@),
    {
        ApiError {
            status: BAD_REQUEST,
            message: enclose("Error parsing string: '", s, "', not a valid integer"),
        }
    }

    /// The text did not parse as a decimal number.
    pub fn invalid_decimal(s: &str) -> (r: ApiError)
        ensures
            r@ == invalid_decimal_error(s@),
    {
        ApiError {
            status: BAD_REQUEST,
            message: enclose("Error parsing string: '", s, "', not a valid decimal"),
        }
    }

    /// A filter parameter outside the accepted names.
    pub fn unknown_parameter(key: &str) -> (r: ApiError)
        ensures
            r@ == unknown_parameter_error(key@),
    {
        ApiError { status: BAD_REQUEST, message: enclose("the parameter '", key, "' is incorrect") }
    }

    /// Both `id` and `ids` were given.
    pub fn id_xor_ids() -> (r: ApiError)
        ensures
            r@ == id_xor_ids_error(),
    {
        ApiError {
            status: BAD_REQUEST,
            message: String::from_str("select only one of them, id xor ids"),
        }
    }

    /// The message, as the error's text form.
    pub fn to_string(&self) -> (r: String)
        ensures
            r@ == self.message@,
    {
        self.message.clone()
    }
}

} // verus!
