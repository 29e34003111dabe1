//! Pattern matching: bindings with `@`, struct and tuple destructuring,
//! guards and nested enums. Each function returns the line its match arm
//! reports.
use vstd::prelude::*;
use vstd::string::StringExecFns;
use crate::numbers::{decimal_text, format_i32};

verus! {

/// `prefix` followed by the decimal text of `n`.
fn labelled_number(prefix: &str, n: i32) -> (r: String)
    ensures
        r@ == prefix@ + decimal_text(n as int),
{
    let mut r = prefix.to_owned();
    let digits = format_i32(n);
    r.append(digits.as_str());
    r
}

/// Whether `n` lies in `1..=5`, reported with the bound value.
pub fn range_binding(n: i32) -> (r: String)
    ensures
        r@ == (if 1 <= n <= 5 {
            "got "@ + decimal_text(n as int) + ", in range 1..=5"@
        } else {
            "out of range"@
        }),
{
    match n {
        x @ 1..=5 => {
            let mut r = labelled_number("got ", x);
            r.append(", in range 1..=5");
            r
        },
        _ => "out of range".to_owned(),
    }
}

/// A user with a name and an age.
pub struct User {
    pub name: String,
    pub age: u32,
}

/// Whether the user is a young adult (aged 18 to 30).
pub fn describe_user(user: User) -> (r: String)
    ensures
        r@ == (if 18 <= user.age <= 30 {
            user.name@ + " is a young adult"@
        } else {
            user.name@ + " is some other age"@
        }),
{
    match user {
        User { name, age: 18..=30 } => {
            let mut r = name;
            r.append(" is a young adult");
            r
        },
        User { name, .. } => {
            let mut r = name;
            r.append(" is some other age");
            r
        },
    }
}

/// How the two numbers of a pair relate: checked in order, a zero first
/// component, a zero second component, opposite numbers. Telling opposites
/// apart negates `y`, which must then not be `i32::MIN`.
pub fn describe_pair(x: i32, y: i32) -> (r: String)
    requires
        x == 0 || y == 0 || y != i32::MIN,
    ensures
        r@ == (if x == 0 {
            "first is zero, y="@ + decimal_text(y as int)
        } else if y == 0 {
            "second is zero, x="@ + decimal_text(x as int)
        } else if x == -y {
            decimal_text(x as int) + " and "@ + decimal_text(y as int) + " are opposites"@
        } else {
            "no special relationship"@
        }),
{
    match (x, y) {
        (0, y) => labelled_number("first is zero, y=", y),
        (x, 0) => labelled_number("second is zero, x=", x),
        (x, y) if x == -y => {
            let mut r = format_i32(x);
            r.append(" and ");
            let ys = format_i32(y);
            r.append(ys.as_str());
            r.append(" are opposites");
            r
        },
        _ => "no special relationship".to_owned(),
    }
}

/// Reports an optional result, matching both layers at once.
pub fn describe_nested(nested: Option<Result<i32, String>>) -> (r: String)
    ensures
        r@ == match nested {
            Some(Ok(n)) => "nested ok: "@ + decimal_text(n as int),
            Some(Err(e)) => "nested err: "@ + e@,
            None => "nothing at all"@,
        },
{
    match nested {
        Some(Ok(n)) => labelled_number("nested ok: ", n),
        Some(Err(e)) => {
            let mut r = "nested err: ".to_owned();
            r.append(e.as_str());
            r
        },
        None => "nothing at all".to_owned(),
    }
}

} // verus!
