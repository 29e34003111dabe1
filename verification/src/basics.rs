//! Variables, control flow, ownership and borrowing: the computations behind
//! the first chapters of the tour.
use vstd::prelude::*;
use vstd::string::StringExecFns;
use vstd::utf8::{encode_utf8, decode_utf8, is_char_boundary};
use crate::numbers::{decimal_text, format_i32};

verus! {

/// Adds one; the result must fit in an `i32`.
pub fn add_one(n: i32) -> (r: i32)
    requires
        n < i32::MAX,
    ensures
        r == n + 1,
{
    n + 1
}

/// `"even"` or `"odd"`, as an `if` expression picks it.
pub fn parity(n: i32) -> (r: &'static str)
    ensures
        r@ == (if n % 2 == 0 { "even"@ } else { "odd"@ }),
{
    if n % 2 == 0 {
        "even"
    } else {
        "odd"
    }
}

/// The line the tour's `match` on a number prints. The arms are tried in
/// order: `1`, `2 | 3`, `4..=6`, a guard `n < 0`, and the catch-all.
pub fn describe_number(num: i32) -> (r: String)
    ensures
        r@ == (if num == 1 {
            "one"@
        } else if num == 2 || num == 3 {
            "two or three"@
        } else if 4 <= num <= 6 {
            "four through six"@
        } else if num < 0 {
            "negative: "@ + decimal_text(num as int)
        } else {
            "something else"@
        }),
{
    match num {
        1 => "one".to_owned(),
        2 | 3 => "two or three".to_owned(),
        4..=6 => "four through six".to_owned(),
        n if n < 0 => {
            let mut r = "negative: ".to_owned();
            let digits = format_i32(n);
            r.append(digits.as_str());
            r
        },
        _ => "something else".to_owned(),
    }
}

/// Counts up from zero in a `loop` and breaks out with twice the counter once
/// it reaches `stop`.
pub fn loop_break_value(stop: u32) -> (r: u32)
    requires
        1 <= stop <= u32::MAX / 2,
    ensures
        r == 2 * stop,
{
    let mut counter: u32 = 0;
    let mut result: u32 = 0;
    loop
        invariant_except_break
            counter < stop,
        invariant
            1 <= stop <= u32::MAX / 2,
        ensures
            result == 2 * stop,
        decreases stop - counter,
    {
        counter += 1;
        if counter == stop {
            result = counter * 2;
            break;
        }
    }
    result
}

/// Counts with an inner loop until `limit` and leaves both loops at once
/// through a labelled `break`.
pub fn count_to_with_label(limit: u32) -> (r: u32)
    ensures
        r == limit,
{
    let mut count: u32 = 0;
    'outer: loop
        invariant
            count <= limit,
        ensures
            count == limit,
        decreases limit - count,
    {
        loop
            invariant
                count <= limit,
            ensures
                count == limit,
            decreases limit - count,
        {
            if count == limit {
                break 'outer;
            }
            count += 1;
        }
    }
    count
}

/// The length of a string in bytes, as `String::len` gives it.
pub fn calculate_length(s: &String) -> (r: usize)
    ensures
        r == encode_utf8(s@).len() as usize,
{
    s.as_str().len()
}

/// Appends `" world"` through a mutable borrow.
pub fn append_world(s: &mut String)
    ensures
        final(s)@ == old(s)@ + " world"@,
{
    s.append(" world");
}

/// Rebinding a name to new values: `x + 1`, then twice that. The result
/// must fit in an `i32`.
pub fn shadowed(x: i32) -> (r: i32)
    requires
        i32::MIN <= (x + 1) * 2 <= i32::MAX,
    ensures
        r == (x + 1) * 2,
{
    let x = x + 1;
    let x = x * 2;
    x
}

/// How many values the range from `lo` to `hi` holds, `hi` itself included
/// when `inclusive`.
pub open spec fn range_len(lo: i32, hi: i32, inclusive: bool) -> int {
    let end = if inclusive { hi + 1 } else { hi as int };
    if end <= lo { 0 } else { end - lo }
}

/// The values of the range `lo..hi`, or `lo..=hi` when `inclusive`, in
/// order.
pub fn range_values(lo: i32, hi: i32, inclusive: bool) -> (r: Vec<i32>)
    ensures
        r@ == Seq::new(range_len(lo, hi, inclusive) as nat, |i: int| (lo + i) as i32),
{
    let end: i64 = if inclusive { hi as i64 + 1 } else { hi as i64 };
    let mut out: Vec<i32> = Vec::new();
    let mut v: i64 = lo as i64;
    while v < end
        invariant
            end == (if inclusive { hi + 1 } else { hi as int }),
            lo <= v,
            v <= end || v == lo,
            out@ == Seq::new((v - lo) as nat, |i: int| (lo + i) as i32),
        decreases end - v,
    {
        out.push(v as i32);
        v = v + 1;
        assert(out@ =~= Seq::new((v - lo) as nat, |i: int| (lo + i) as i32));
    }
    assert(out@ =~= Seq::new(range_len(lo, hi, inclusive) as nat, |i: int| (lo + i) as i32));
    out
}

/// Each value written in decimal and followed by a space.
pub open spec fn spaced_text(values: Seq<i32>) -> Seq<char>
    decreases values.len(),
{
    if values.len() == 0 {
        Seq::empty()
    } else {
        spaced_text(values.drop_last()) + decimal_text(values.last() as int) + " "@
    }
}

/// The line a loop printing `"{v} "` for each value writes.
pub fn spaced_numbers(values: &[i32]) -> (r: String)
    ensures
        r@ == spaced_text(values@),
{
    let mut out = String::new();
    for i in 0..values.len()
        invariant
            out@ == spaced_text(values@.take(i as int)),
    {
        let digits = format_i32(values[i]);
        out.append(digits.as_str());
        out.append(" ");
        assert(values@.take(i + 1).drop_last() =~= values@.take(i as int));
    }
    assert(values@.take(values@.len() as int) =~= values@);
    out
}

/// The part of a text between two byte positions, as `&s[from..to]` gives
/// it; both positions must fall between characters (the slice panics
/// otherwise).
pub fn str_slice(s: &str, from: usize, to: usize) -> (r: &str)
    requires
        from <= to <= encode_utf8(s@).len(),
        is_char_boundary(encode_utf8(s@), from as int),
        is_char_boundary(encode_utf8(s@), to as int),
    ensures
        r@ == decode_utf8(encode_utf8(s@).subrange(from as int, to as int)),
{
    broadcast use vstd::utf8::encode_utf8_valid_utf8, vstd::utf8::encode_utf8_decode_utf8;

    let (head, _) = s.split_at(to);
    proof {
        let bytes = encode_utf8(s@);
        let hb = encode_utf8(head@);
        assert(hb =~= bytes.subrange(0, to as int));
        vstd::utf8::valid_utf8_split(bytes, to as int);
        if from < to {
            vstd::utf8::is_char_boundary_iff_not_is_continuation_byte(bytes, from as int);
            vstd::utf8::is_char_boundary_iff_not_is_continuation_byte(hb, from as int);
            assert(hb[from as int] == bytes[from as int]);
        } else {
            vstd::utf8::is_char_boundary_start_end_of_seq(hb);
        }
    }
    let (_, piece) = head.split_at(from);
    proof {
        assert(encode_utf8(piece@) =~= encode_utf8(s@).subrange(from as int, to as int));
        assert(decode_utf8(encode_utf8(piece@)) == piece@);
    }
    piece
}

/// The items between two positions of a list, as `&v[from..to]` gives them.
pub fn sub_slice<T>(v: &[T], from: usize, to: usize) -> (r: &[T])
    requires
        from <= to <= v@.len(),
    ensures
        r@ == v@.subrange(from as int, to as int),
{
    vstd::slice::slice_subrange(v, from, to)
}

} // verus!
