//! Functions and structs that hand out borrowed text.
use vstd::prelude::*;
use vstd::string::StrSliceExecFns;
use vstd::utf8::encode_utf8;
use crate::std_text::chars_of;

verus! {

/// The longer of two texts by length in bytes; the second on a tie.
pub fn longest<'a>(x: &'a str, y: &'a str) -> (r: &'a str)
    ensures
        r@ == (if encode_utf8(x@).len() as usize > encode_utf8(y@).len() as usize {
            x@
        } else {
            y@
        }),
{
    if x.len() > y.len() {
        x
    } else {
        y
    }
}

/// A borrowed part of a longer text; it cannot outlive that text.
pub struct Excerpt<'a> {
    pub part: &'a str,
}

impl<'a> Excerpt<'a> {
    /// The borrowed part.
    pub fn part(&self) -> (r: &'a str)
        ensures
            r@ == self.part@,
    {
        self.part
    }
}

/// The text before the first `sep`, or all of it when there is none.
pub open spec fn before_first(s: Seq<char>, sep: char) -> Seq<char>
    decreases s.len(),
{
    if s.len() == 0 || s[0] == sep {
        Seq::empty()
    } else {
        seq![s[0]] + before_first(s.drop_first(), sep)
    }
}

proof fn lemma_before_first(s: Seq<char>, sep: char, k: int)
    requires
        0 <= k <= s.len(),
        forall|j: int| 0 <= j < k ==> s[j] != sep,
        k == s.len() || s[k] == sep,
    ensures
        before_first(s, sep) == s.take(k),
    decreases k,
{
    if k > 0 {
        let t = s.drop_first();
        assert forall|j: int| 0 <= j < k - 1 implies t[j] != sep by {
            assert(t[j] == s[j + 1]);
        }
        if k < s.len() {
            assert(t[k - 1] == s[k]);
        }
        lemma_before_first(t, sep, k - 1);
        assert(s.take(k) =~= seq![s[0]] + t.take(k - 1));
    } else {
        assert(s.take(0) =~= Seq::<char>::empty());
    }
}

/// The first piece of `s` split at `sep`, as `s.split(sep).next()` gives it.
pub fn first_piece(s: &str, sep: char) -> (r: &str)
    ensures
        r@ == before_first(s@, sep),
{
    let chars = chars_of(s);
    let mut k: usize = 0;
    while k < chars.len() && chars[k] != sep
        invariant
            chars@ == s@,
            k <= chars@.len(),
            forall|j: int| 0 <= j < k ==> chars@[j] != sep,
        decreases chars@.len() - k,
    {
        k = k + 1;
    }
    proof {
        lemma_before_first(s@, sep, k as int);
    }
    s.substring_char(0, k)
}

} // verus!
