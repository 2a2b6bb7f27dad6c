//! The error that the connector reports.

use vstd::prelude::*;
use vstd::string::*;

verus! {

/// The code of an HTTP request that could not be sent or was refused.
pub const SEND_FAILED: i32 = -200;

/// An error, as a code and a message.
#[derive(PartialEq, Eq, Debug)]
pub struct AppError {
    pub code: i32,
    pub message: String,
}

/// What an error says.
pub struct AppErrorView {
    pub code: i32,
    pub message: Seq<char>,
}

impl View for AppError {
    type V = AppErrorView;

    open spec fn view(&self) -> AppErrorView {
        AppErrorView { code: self.code, message: self.message@ }
    }
}

impl AppError {
    /// An error with this code and message.
    pub fn new(code: i32, message: &str) -> (error: Self)
        ensures
            error@ == (AppErrorView { code, message: message@ }),
    {
        AppError { code, message: message.to_string() }
    }
}

/// An error is seen as its code and its message.
pub proof fn law_error_is_seen_as_it_is(error: AppError)
    ensures
        error@.code == error.code,
        error@.message == error.message@,
{
}

} // verus!
