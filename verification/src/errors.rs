//! Recoverable errors: `Result`, `?`, custom error types and conversions
//! between them.
use vstd::prelude::*;
use vstd::string::StringExecFns;
use vstd::std_specs::convert::FromSpecImpl;
use crate::numbers::{
    ParseIntError, parse_i32, parse_i32_spec, error_message_spec, decimal_text, nat_digits,
    lemma_parse_format_roundtrip,
};

verus! {

/// An error carrying a message.
#[derive(Debug)]
pub struct MyError(pub String);

/// `Ok(42)` when asked to succeed, an error otherwise.
pub fn might_fail(succeed: bool) -> (r: Result<i32, MyError>)
    ensures
        match r {
            Ok(v) => succeed && v == 42,
            Err(e) => !succeed && e.0@ == "something went wrong"@,
        },
{
    if succeed {
        Ok(42)
    } else {
        Err(MyError("something went wrong".to_owned()))
    }
}

/// Two successful calls chained with `?`, their results added.
pub fn chain_calls() -> (r: Result<i32, MyError>)
    ensures
        r matches Ok(v) && v == 84,
{
    let a = might_fail(true)?;
    let b = might_fail(true)?;
    Ok(a + b)
}

/// The errors of a user lookup.
#[derive(Debug)]
pub enum AppError {
    /// No user has this id.
    NotFound(String),
    /// The id is not a number.
    Parse(ParseIntError),
}

impl From<ParseIntError> for AppError {
    fn from(e: ParseIntError) -> (r: AppError) {
        AppError::Parse(e)
    }
}

impl FromSpecImpl<ParseIntError> for AppError {
    open spec fn obeys_from_spec() -> bool {
        true
    }

    open spec fn from_spec(e: ParseIntError) -> AppError {
        AppError::Parse(e)
    }
}

impl AppError {
    pub open spec fn message_spec(&self) -> Seq<char> {
        match self {
            AppError::NotFound(s) => "not found: "@ + s@,
            AppError::Parse(e) => "parse error: "@ + error_message_spec(e.kind),
        }
    }

    /// The text the error displays as.
    pub fn message(&self) -> (r: String)
        ensures
            r@ == self.message_spec(),
    {
        match self {
            AppError::NotFound(s) => {
                let mut r = "not found: ".to_owned();
                r.append(s.as_str());
                r
            },
            AppError::Parse(e) => {
                let mut r = "parse error: ".to_owned();
                r.append(e.message());
                r
            },
        }
    }
}

/// Looks a user up by a numeric id given as text. Only id 1 exists, and it
/// belongs to Alice; text that is not a number is a parse error.
pub fn find_user(id: &str) -> (r: Result<String, AppError>)
    ensures
        match parse_i32_spec(id@) {
            Err(e) => r matches Err(AppError::Parse(e2)) && e2 == e,
            Ok(n) => if n == 1 {
                r matches Ok(name) && name@ == "Alice"@
            } else {
                r matches Err(AppError::NotFound(s)) && s@ == id@
            },
        },
{
    let numeric_id = match parse_i32(id) {
        Ok(n) => n,
        Err(e) => {
            return Err(AppError::from(e));
        },
    };
    if numeric_id == 1 {
        Ok("Alice".to_owned())
    } else {
        Err(AppError::NotFound(id.to_owned()))
    }
}

/// Any error, the way a boxed `dyn Error` carries either a plain message or
/// a parse error.
#[derive(Debug)]
pub enum GenericError {
    Message(String),
    Parse(ParseIntError),
}

impl From<ParseIntError> for GenericError {
    fn from(e: ParseIntError) -> (r: GenericError) {
        GenericError::Parse(e)
    }
}

impl FromSpecImpl<ParseIntError> for GenericError {
    open spec fn obeys_from_spec() -> bool {
        true
    }

    open spec fn from_spec(e: ParseIntError) -> GenericError {
        GenericError::Parse(e)
    }
}

impl GenericError {
    pub open spec fn message_spec(&self) -> Seq<char> {
        match self {
            GenericError::Message(s) => s@,
            GenericError::Parse(e) => error_message_spec(e.kind),
        }
    }

    /// The text the error displays as.
    pub fn message(&self) -> (r: String)
        ensures
            r@ == self.message_spec(),
    {
        match self {
            GenericError::Message(s) => s.clone(),
            GenericError::Parse(e) => e.message().to_owned(),
        }
    }
}

/// Rejects a negative `x`; otherwise adds to it the number read from `"10"`.
pub fn might_fail_generic(x: i32) -> (r: Result<i32, GenericError>)
    requires
        x <= i32::MAX - 10,
    ensures
        x < 0 ==> (r matches Err(GenericError::Message(m)) && m@ == "x must be non-negative"@),
        x >= 0 ==> (r matches Ok(v) && v == x + 10),
{
    if x < 0 {
        return Err(GenericError::Message("x must be non-negative".to_owned()));
    }
    let ten = "10";
    proof {
        reveal_strlit("10");
        lemma_parse_format_roundtrip(10);
        assert(nat_digits(1) == seq!['1']);
        assert(decimal_text(10) =~= ten@);
    }
    let parsed = match parse_i32(ten) {
        Ok(n) => n,
        Err(e) => {
            return Err(GenericError::from(e));
        },
    };
    Ok(x + parsed)
}

} // verus!
