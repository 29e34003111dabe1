//! Generic functions over ordered values, and a trait with a default method.
use vstd::prelude::*;
use vstd::std_specs::cmp::{PartialOrdIs, PartialOrdSpec};
use vstd::string::StringExecFns;
use vstd::utf8::{encode_utf8, decode_utf8, is_char_boundary};

verus! {

/// The value `largest` ends with: walking the list from its first element,
/// every item that compares greater than the value so far replaces it.
pub open spec fn largest_spec<T: PartialOrd>(s: Seq<T>) -> T
    decreases s.len(),
{
    if s.len() <= 1 {
        s[0]
    } else {
        let m = largest_spec(s.drop_last());
        if s.last().is_gt(&m) {
            s.last()
        } else {
            m
        }
    }
}

/// Whether `T`'s comparisons behave as their specification says.
pub open spec fn compares_by_spec<T: PartialOrd>() -> bool {
    T::obeys_partial_cmp_spec()
}

/// What `largest` holds after looking at the first `i` items (the first item
/// is its starting value).
pub open spec fn largest_after<T: PartialOrd>(s: Seq<T>, i: usize) -> T {
    largest_spec(s.take(if i == 0 { 1 } else { i as int }))
}

proof fn lemma_largest_after_step<T: PartialOrd>(s: Seq<T>, i: usize)
    requires
        i < s.len(),
        i < usize::MAX,
    ensures
        largest_after(s, (i + 1) as usize) == (if i == 0 {
            s[0]
        } else if s[i as int].is_gt(&largest_after(s, i)) {
            s[i as int]
        } else {
            largest_after(s, i)
        }),
{
    if i > 0 {
        assert(s.take(i + 1).drop_last() =~= s.take(i as int));
    } else {
        assert(s.take(1)[0] == s[0]);
    }
}

proof fn lemma_largest_after_all<T: PartialOrd>(s: Seq<T>, n: usize)
    requires
        n == s.len(),
        n >= 1,
    ensures
        largest_after(s, n) == largest_spec(s),
{
    assert(s.take(n as int) =~= s);
}

/// The largest item of a non-empty list, for any type whose comparison
/// follows its specification (integers among them).
pub fn largest<T: PartialOrd + Copy>(list: &[T]) -> (r: T)
    requires
        list@.len() >= 1,
    ensures
        list@.contains(r),
        compares_by_spec::<T>() ==> r == largest_spec(list@),
{
    let mut largest = list[0];
    let n = list.len();
    let mut i: usize = 0;
    while i < n
        invariant
            0 <= i <= n,
            n == list@.len(),
            n >= 1,
            largest == list@[0] || i > 0,
            list@.contains(largest),
            compares_by_spec::<T>() && i > 0 ==> largest == largest_after(list@, i),
        decreases n - i,
    {
        let item = list[i];
        proof {
            lemma_largest_after_step(list@, i);
        }
        if item > largest {
            largest = item;
        }
        i = i + 1;
    }
    proof {
        lemma_largest_after_all(list@, n);
    }
    largest
}

/// For integers the result of `largest` is the maximum of the list.
pub proof fn lemma_largest_is_maximum(s: Seq<i32>)
    requires
        s.len() >= 1,
    ensures
        s.contains(largest_spec(s)),
        forall|i: int| 0 <= i < s.len() ==> s[i] <= largest_spec(s),
    decreases s.len(),
{
    if s.len() > 1 {
        let t = s.drop_last();
        lemma_largest_is_maximum(t);
        assert forall|i: int| 0 <= i < s.len() implies s[i] <= largest_spec(s) by {
            if i < s.len() - 1 {
                assert(s[i] == t[i]);
            }
        }
        if largest_spec(s) == largest_spec(t) {
            let k = choose|k: int| 0 <= k < t.len() && t[k] == largest_spec(t);
            assert(s[k] == t[k]);
        } else {
            assert(s[s.len() - 1] == largest_spec(s));
        }
    } else {
        assert(s[0] == largest_spec(s));
    }
}

/// Something that can describe itself in one line.
pub trait Summary {
    /// Whether `summarize` may be called on this value (it may panic
    /// otherwise).
    spec fn summarizable(&self) -> bool;

    fn summarize(&self) -> (r: String)
        requires
            self.summarizable(),
        default_ensures
            r@ == "(no summary available)"@,
    {
        "(no summary available)".to_owned()
    }
}

/// A news article.
pub struct Article {
    pub title: String,
    pub body: String,
}

/// The number of bytes of the body an article's summary shows.
pub open spec fn preview_len(body: Seq<char>) -> int {
    if encode_utf8(body).len() < 10 {
        encode_utf8(body).len() as int
    } else {
        10
    }
}

/// The characters of the first bytes of a text.
pub open spec fn byte_prefix(body: Seq<char>, n: int) -> Seq<char> {
    decode_utf8(encode_utf8(body).take(n))
}

impl Summary for Article {
    /// The cut after the first ten bytes of the body must fall between two
    /// characters (and the body, like any string in memory, has a length
    /// that a `usize` holds).
    open spec fn summarizable(&self) -> bool {
        &&& encode_utf8(self.body@).len() <= usize::MAX
        &&& is_char_boundary(encode_utf8(self.body@), preview_len(self.body@))
    }

    /// `"{title}: {first ten bytes of the body}..."`.
    fn summarize(&self) -> (r: String)
        ensures
            r@ == self.title@ + ": "@ + byte_prefix(self.body@, preview_len(self.body@)) + "..."@,
    {
        let body = self.body.as_str();
        let len = body.len();
        let k: usize = if len < 10 { len } else { 10 };
        let (preview, _) = body.split_at(k);
        proof {
            broadcast use vstd::utf8::encode_utf8_decode_utf8;
            assert(encode_utf8(preview@) =~= encode_utf8(self.body@).take(k as int));
            assert(decode_utf8(encode_utf8(preview@)) == preview@);
        }
        let mut r = self.title.clone();
        r.append(": ");
        r.append(preview);
        r.append("...");
        r
    }
}

/// A short post; its summary is the default one.
pub struct Tweet {
    pub user: String,
}

impl Summary for Tweet {
    open spec fn summarizable(&self) -> bool {
        true
    }
}

} // verus!
