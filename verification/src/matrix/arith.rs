//! Element-wise addition, and the zero- and one-filled constructors, for
//! matrices of numbers.
use crate::error::ErrorKind;
use crate::matrix::{Matrix, MatrixView};
use crate::shape::{canonical_dims, same_dims, shape_size};
use core::ops::Add;
use vstd::prelude::*;
use vstd::slice::slice_to_vec;
use vstd::std_specs::convert::FromSpec;
use vstd::std_specs::ops::AddSpec;

verus! {

/// `s` is a value that `a + b` may return; where the element type's addition
/// has a specification, it is the value that the specification gives.
pub open spec fn is_sum<T: Add<Output = T>>(a: T, b: T, s: T) -> bool {
    &&& call_ensures(<T as Add>::add, (a, b), s)
    &&& T::obeys_add_spec() ==> s == a.add_spec(b)
}

/// `item` is a value that converting the small number `n` to the element type
/// may return; where the conversion has a specification, it is the value that
/// the specification gives.
pub open spec fn is_number<T: From<u8>>(n: u8, item: T) -> bool {
    &&& call_ensures(<T as From<u8>>::from, (n,), item)
    &&& T::obeys_from_spec() ==> item == T::from_spec(n)
}

/// `s` is a value that adding a clone of `a` and a clone of `b` may return.
pub open spec fn is_sum_of_clones<T: Clone + Add<Output = T>>(a: T, b: T, s: T) -> bool {
    exists|u: T, v: T| #[trigger] cloned(a, u) && #[trigger] cloned(b, v) && is_sum(u, v, s)
}

impl<T: Add<Output = T>> MatrixView<T> {
    /// Every pair of elements at the same position can be added.
    pub open spec fn addable_to(self, other: Self) -> bool {
        forall|i: int|
            0 <= i < self.data.len() && i < other.data.len() ==> (#[trigger] self.data[i]).add_req(
                other.data[i],
            )
    }

    /// `self` is the element-wise sum of `a` and `b`, two matrices of one
    /// shape: it has their shape, and its element at each position of the
    /// buffer is the sum of theirs at that position.
    pub open spec fn is_sum_of(self, a: Self, b: Self) -> bool {
        &&& self.dims == a.dims
        &&& self.dims == b.dims
        &&& self.data.len() == a.data.len()
        &&& self.data.len() == b.data.len()
        &&& forall|i: int|
            0 <= i < self.data.len() ==> is_sum(a.data[i], b.data[i], #[trigger] self.data[i])
    }
}

/// Two matrices filled over the same dimension sizes `d`, one with `a` and one
/// with `b`, have the same shape, so that they can be added. Their sum has the
/// canonical form of `d` as its shape, one element for each position that `d`
/// asks for, and each element is the sum of a clone of `a` and a clone of `b`:
/// the sum of `a` and `b` themselves where a clone of either is the value
/// itself.
pub proof fn lemma_sum_of_filled<T: Clone + Add<Output = T>>(
    d: Seq<usize>,
    a: T,
    b: T,
    x: MatrixView<T>,
    y: MatrixView<T>,
    s: MatrixView<T>,
)
    requires
        x.is_filled(d, a),
        y.is_filled(d, b),
        s.is_sum_of(x, y),
    ensures
        x.dims == y.dims,
        s.dims == canonical_dims(d),
        s.data.len() == shape_size(d),
        forall|i: int| 0 <= i < s.data.len() ==> is_sum_of_clones(a, b, #[trigger] s.data[i]),
        (forall|u: T| #[trigger] cloned(a, u) ==> u == a) && (forall|v: T| #[trigger]
            cloned(b, v) ==> v == b) ==> forall|i: int|
            0 <= i < s.data.len() ==> is_sum(a, b, #[trigger] s.data[i]),
{
    assert forall|i: int| 0 <= i < s.data.len() implies is_sum_of_clones(
        a,
        b,
        #[trigger] s.data[i],
    ) by {
        assert(cloned(a, x.data[i]));
        assert(cloned(b, y.data[i]));
        assert(is_sum(x.data[i], y.data[i], s.data[i]));
    }
    if (forall|u: T| #[trigger] cloned(a, u) ==> u == a) && (forall|v: T| #[trigger]
        cloned(b, v) ==> v == b) {
        assert forall|i: int| 0 <= i < s.data.len() implies is_sum(a, b, #[trigger] s.data[i]) by {
            assert(cloned(a, x.data[i]));
            assert(cloned(b, y.data[i]));
            assert(is_sum(x.data[i], y.data[i], s.data[i]));
        }
    }
}

/// Matrices filled over dimension sizes with different canonical forms have
/// different shapes, so that they cannot be added.
pub proof fn lemma_filled_shapes_differ<T: Clone>(
    d: Seq<usize>,
    e: Seq<usize>,
    a: T,
    b: T,
    x: MatrixView<T>,
    y: MatrixView<T>,
)
    requires
        x.is_filled(d, a),
        y.is_filled(e, b),
        canonical_dims(d) != canonical_dims(e),
    ensures
        x.dims != y.dims,
{
}

impl<T: Copy + Add<Output = T>> Matrix<T> {
    /// Adds two matrices of the same shape element by element. Matrices of
    /// different shapes are refused, and nothing is computed.
    pub fn add(&self, other: &Self) -> (result: Result<Self, ErrorKind>)
        requires
            self@.dims == other@.dims ==> self@.addable_to(other@),
        ensures
            match result {
                Ok(sum) => self@.dims == other@.dims && sum@.wf() && sum@.is_sum_of(
                    self@,
                    other@,
                ),
                Err(e) => self@.dims != other@.dims && e == ErrorKind::ShapeMismatch,
            },
    {
        proof {
            use_type_invariant(self);
            use_type_invariant(other);
        }
        if !same_dims(self.dims.as_slice(), other.dims.as_slice()) {
            return Err(ErrorKind::ShapeMismatch);
        }
        let n: usize = self.data.len();
        let mut data: Vec<T> = Vec::with_capacity(n);
        let mut i: usize = 0;
        while i < n
            invariant
                n == self.data@.len(),
                n == other.data@.len(),
                i <= n,
                data@.len() == i,
                self@.addable_to(other@),
                self@.data == self.data@,
                other@.data == other.data@,
                forall|j: int|
                    0 <= j < i ==> is_sum(self.data@[j], other.data@[j], #[trigger] data@[j]),
            decreases n - i,
        {
            let s: T = self.data[i] + other.data[i];
            data.push(s);
            i += 1;
        }
        let dims: Vec<usize> = slice_to_vec(self.dims.as_slice());
        Ok(Matrix { data, dims })
    }
}

impl<T: Clone + From<u8>> Matrix<T> {
    /// Constructs a matrix with the given dimension sizes, filled with zeros.
    pub fn zeros(dims: &[usize]) -> (m: Self)
        requires
            shape_size(dims@) <= usize::MAX,
        ensures
            m@.wf(),
            exists|zero: T| is_number(0u8, zero) && #[trigger] m@.is_filled(dims@, zero),
    {
        Self::fill(dims, T::from(0u8))
    }

    /// Constructs a matrix with the given dimension sizes, filled with ones.
    pub fn ones(dims: &[usize]) -> (m: Self)
        requires
            shape_size(dims@) <= usize::MAX,
        ensures
            m@.wf(),
            exists|one: T| is_number(1u8, one) && #[trigger] m@.is_filled(dims@, one),
    {
        Self::fill(dims, T::from(1u8))
    }
}

} // verus!
