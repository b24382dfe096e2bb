//! Printing for the types that cannot derive it.

use vstd::prelude::*;
use crate::movement::CustomRule;

verus! {

/// `core::fmt::Formatter`, taken as it is.
#[verifier::external_type_specification]
#[verifier::external_body]
pub struct ExFormatter<'a>(core::fmt::Formatter<'a>);

/// `core::fmt::Error`, taken as it is.
#[verifier::external_type_specification]
#[verifier::external_body]
pub struct ExFmtError(core::fmt::Error);

impl core::fmt::Debug for CustomRule {
    /// Writes a mark in place of the rule, which has no name to show, through
    /// `core::fmt::Formatter::write_str`. Nothing is claimed of what the
    /// formatter answers.
    #[verifier::external_body]
    fn fmt(&self, f: &mut core::fmt::Formatter<'_>) -> (r: core::fmt::Result) {
        f.write_str("<fn>")
    }
}

} // verus!
