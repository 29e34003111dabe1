//! A tour of the language's core features, each piece with a proved
//! contract: numbers read from and written to text, control flow, structs,
//! error handling, generics and traits, iterators, pattern matching, and
//! collections.
use vstd::prelude::*;

pub mod std_text;
pub mod numbers;
pub mod basics;
pub mod shapes;
pub mod errors;
pub mod generics_traits;
pub mod iterators;
pub mod countdown;
pub mod collections;
pub mod patterns;
pub mod lifetimes;
pub mod advanced_traits;
pub mod modules_demo;
pub mod advanced_modules;
