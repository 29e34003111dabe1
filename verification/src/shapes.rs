//! Structs and their methods: rectangles, tuple and unit structs, a generic
//! pair and a buffer whose size is a const generic.
use vstd::prelude::*;

verus! {

/// A rectangle with integer sides.
#[derive(Debug, Clone, Copy, PartialEq, Eq, Structural)]
pub struct Rectangle {
    pub width: u32,
    pub height: u32,
}

impl Rectangle {
    pub open spec fn area_spec(self) -> int {
        self.width * self.height
    }

    /// A square with sides `size`.
    pub fn square(size: u32) -> (r: Rectangle)
        ensures
            r.width == size,
            r.height == size,
    {
        Rectangle { width: size, height: size }
    }

    /// Width times height; the product must fit in a `u32`.
    pub fn area(&self) -> (r: u32)
        requires
            self.area_spec() <= u32::MAX,
        ensures
            r == self.area_spec(),
    {
        self.width * self.height
    }

    /// Doubles both sides in place; each doubled side must fit in a `u32`.
    pub fn double(&mut self)
        requires
            old(self).width * 2 <= u32::MAX,
            old(self).height * 2 <= u32::MAX,
        ensures
            final(self).width == old(self).width * 2,
            final(self).height == old(self).height * 2,
    {
        self.width *= 2;
        self.height *= 2;
    }
}

/// The rectangle with the given sides.
pub open spec fn rect(width: u32, height: u32) -> Rectangle {
    Rectangle { width, height }
}

/// The area is width times height: it does not change when the sides are
/// swapped, a rectangle one unit high has its width as area, one more unit of
/// width adds one height to the area, and a rectangle with no width has no
/// area. Together these fix the area of every rectangle.
pub proof fn lemma_area_is_width_times_height(w: u32, h: u32)
    ensures
        rect(w, h).area_spec() == rect(h, w).area_spec(),
        rect(w, 1).area_spec() == w,
        rect(0, h).area_spec() == 0,
        w < u32::MAX ==> rect((w + 1) as u32, h).area_spec() == rect(w, h).area_spec() + h,
{
    assert(w * h == h * w) by (nonlinear_arith);
    assert((w + 1) * h == w * h + h) by (nonlinear_arith);
}

/// Doubling both sides of a rectangle multiplies its area by four.
pub proof fn lemma_double_quadruples_area(before: Rectangle, after: Rectangle)
    requires
        after.width == before.width * 2,
        after.height == before.height * 2,
    ensures
        after.area_spec() == 4 * before.area_spec(),
{
    assert(after.area_spec() == 4 * before.area_spec()) by (nonlinear_arith)
        requires
            after.width == before.width * 2,
            after.height == before.height * 2,
    ;
}

/// A point given by its two coordinates, a tuple struct.
#[derive(Debug, Clone, Copy, PartialEq, Eq, Structural)]
pub struct Point(pub i32, pub i32);

/// A struct with no fields, used as a marker.
#[derive(Debug, Clone, Copy, PartialEq, Eq, Structural)]
pub struct Unit;

/// Two values of the same type.
pub struct Pair<T> {
    pub first: T,
    pub second: T,
}

/// The first element of a fixed-size array; the array must not be empty.
pub fn first_n<const N: usize>(arr: [i32; N]) -> (r: i32)
    requires
        N > 0,
    ensures
        r == arr@[0],
{
    arr[0]
}

/// A zero-filled byte buffer whose length is fixed by the type.
pub struct FixedBuffer<const SIZE: usize> {
    data: Vec<u8>,
}

impl<const SIZE: usize> FixedBuffer<SIZE> {
    /// The bytes held, always `SIZE` of them.
    pub closed spec fn bytes(&self) -> Seq<u8> {
        self.data@
    }

    pub closed spec fn wf(&self) -> bool {
        self.data@.len() == SIZE
    }

    /// A buffer of `SIZE` zero bytes.
    pub fn new() -> (r: Self)
        ensures
            r.wf(),
            r.bytes() == Seq::new(SIZE as nat, |i: int| 0u8),
    {
        let mut data: Vec<u8> = Vec::new();
        for i in 0..SIZE
            invariant
                data@ == Seq::new(i as nat, |j: int| 0u8),
        {
            data.push(0);
        }
        FixedBuffer { data }
    }

    /// The buffer's length, `SIZE`.
    pub fn len(&self) -> (r: usize)
        ensures
            r == SIZE,
    {
        SIZE
    }
}

} // verus!
