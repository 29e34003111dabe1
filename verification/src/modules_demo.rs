//! Small public and private helpers: arithmetic and a greeting.
use vstd::prelude::*;
use vstd::string::StringExecFns;

verus! {

/// Adds two integers. The sum must fit in an `i32` (the addition would
/// overflow otherwise).
pub fn add(a: i32, b: i32) -> (r: i32)
    requires
        i32::MIN <= a + b <= i32::MAX,
    ensures
        r == a + b,
{
    a + b
}

/// A helper that only this module uses.
fn internal_helper() -> (r: i32)
    ensures
        r == 0,
{
    0
}

/// `"Hello, {name}!"`.
pub fn hello(name: &str) -> (r: String)
    ensures
        r@ == "Hello, "@ + name@ + "!"@,
{
    let mut r = "Hello, ".to_owned();
    r.append(name);
    r.append("!");
    r
}

} // verus!
