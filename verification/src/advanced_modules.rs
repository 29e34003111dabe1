//! Items reached through nested modules and re-exports.
use vstd::prelude::*;
use vstd::string::StringExecFns;
use crate::numbers::{decimal_text, format_i32};

pub use self::greet as hello_fn;

verus! {

/// The value the nested greeting reports.
pub fn sibling_value() -> (r: i32)
    ensures
        r == 99,
{
    99
}

/// `"deep says hi, sibling value = {sibling_value()}"`.
pub fn greet() -> (r: String)
    ensures
        r@ == "deep says hi, sibling value = "@ + decimal_text(99),
{
    let mut r = "deep says hi, sibling value = ".to_owned();
    let v = format_i32(sibling_value());
    r.append(v.as_str());
    r
}

/// A unit struct re-exported at the top of its module.
pub struct Reexported;

impl Reexported {
    pub fn hello() -> (r: &'static str)
        ensures
            r@ == "re-exported item"@,
    {
        "re-exported item"
    }
}

/// Visible to the whole crate, not to its users.
pub(crate) fn crate_visible_helper() -> (r: i32)
    ensures
        r == 1,
{
    1
}

} // verus!
