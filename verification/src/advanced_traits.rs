//! Traits with associated types, trait methods per type, and a blanket
//! behaviour built on a type's text.
use vstd::prelude::*;
use vstd::string::StringExecFns;
use vstd::utf8::encode_utf8;
use crate::std_text::{uppercase, to_uppercase};

verus! {

/// A collection that hands out its items by position.
pub trait Container {
    type Item;

    fn get(&self, i: usize) -> Option<&Self::Item>;
}

/// A bucket of integers.
pub struct Bucket {
    pub items: Vec<i32>,
}

impl Container for Bucket {
    type Item = i32;

    /// The item at position `i`, if there is one.
    fn get(&self, i: usize) -> (r: Option<&i32>)
        ensures
            i < self.items@.len() ==> r == Some(&self.items@[i as int]),
            i >= self.items@.len() ==> r is None,
    {
        if i < self.items.len() {
            Some(&self.items[i])
        } else {
            None
        }
    }
}

/// A robot known by its name.
pub struct Robot(pub String);

impl Robot {
    /// The length in bytes of the robot's name as it displays.
    pub fn name_len(&self) -> (r: usize)
        ensures
            r == encode_utf8(self.0@).len() as usize,
    {
        self.0.as_str().len()
    }
}

/// Something that makes a sound.
pub trait Animal {
    fn speak(&self) -> String;
}

pub struct Dog;

pub struct Cat;

impl Animal for Dog {
    fn speak(&self) -> (r: String)
        ensures
            r@ == "Woof"@,
    {
        "Woof".to_owned()
    }
}

impl Animal for Cat {
    fn speak(&self) -> (r: String)
        ensures
            r@ == "Meow"@,
    {
        "Meow".to_owned()
    }
}

/// Appends three exclamation marks to a text already in upper case.
pub fn exclaim(upper: String) -> (r: String)
    ensures
        r@ == upper@ + "!!!"@,
{
    let mut r = upper;
    r.append("!!!");
    r
}

/// A value's text in upper case followed by `"!!!"`.
pub fn shout(text: &str) -> (r: String)
    ensures
        r@ == uppercase(text@) + "!!!"@,
{
    exclaim(to_uppercase(text))
}

} // verus!
