//! What the local web pages submit.

use vstd::prelude::*;
use crate::gpa::GPAMode;
use crate::text::same_text;

verus! {

/// The login form: portal account and password.
pub struct LoginForm {
    pub account: String,
    pub password: String,
}

/// The mode a result page asks for: `all`, or anything else for the default.
pub struct CalculateMode {
    pub mode: String,
}

impl CalculateMode {
    pub fn gpa_mode(&self) -> (r: GPAMode)
        ensures
            r == if self.mode@ == "all"@ {
                GPAMode::All
            } else {
                GPAMode::Default
            },
    {
        if same_text(self.mode.as_str(), "all") {
            GPAMode::All
        } else {
            GPAMode::Default
        }
    }
}

} // verus!
