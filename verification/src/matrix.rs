//! The generic matrix container and its constructors.
use crate::shape::{
    canonical_dims, checked_size, has_zero, is_canonical, is_stripped, lemma_canonical_dims,
    lemma_canonical_idempotent, lemma_product_zero, lemma_strip_keeps_size,
    lemma_strip_trailing_ones, product, shape_size, strip_trailing_ones, trailing_ones,
};
use vstd::prelude::*;
use vstd::slice::slice_to_vec;

pub mod arith;

verus! {

/// What a matrix is, mathematically: its shape and its elements in row-major
/// order.
pub struct MatrixView<T> {
    pub dims: Seq<usize>,
    pub data: Seq<T>,
}

impl<T> MatrixView<T> {
    /// The shape is canonical, and there are as many elements as it asks for.
    pub open spec fn wf(self) -> bool {
        &&& is_canonical(self.dims)
        &&& self.data.len() == shape_size(self.dims)
    }

    /// Every element is a clone of `item`.
    pub open spec fn all_cloned_from(self, item: T) -> bool where T: Clone {
        forall|i: int| 0 <= i < self.data.len() ==> cloned(item, #[trigger] self.data[i])
    }

    /// The matrix that filling the dimension sizes `d` with `item` gives: its
    /// shape is the canonical form of `d`, it has one element for each
    /// position that `d` asks for, and each is a clone of `item`.
    pub open spec fn is_filled(self, d: Seq<usize>, item: T) -> bool where T: Clone {
        &&& self.dims == canonical_dims(d)
        &&& self.data.len() == shape_size(d)
        &&& self.all_cloned_from(item)
    }
}

/// An n-dimensional generic matrix.
pub struct Matrix<T: Clone> {
    /// The elements, in contiguous memory, the last dimension varying fastest.
    data: Vec<T>,
    /// The size of each dimension; its length is the number of dimensions.
    dims: Vec<usize>,
}

impl<T: Clone> View for Matrix<T> {
    type V = MatrixView<T>;

    closed spec fn view(&self) -> MatrixView<T> {
        MatrixView { dims: self.dims@, data: self.data@ }
    }
}

impl<T: Clone> Matrix<T> {
    #[verifier::type_invariant]
    spec fn inv(&self) -> bool {
        self@.wf()
    }

    /// Removes the trailing dimensions of size 1. The first dimension is never
    /// removed, so a sequence of ones shrinks to a single one.
    pub fn remove_trailing_size_one_dims(dims: &mut Vec<usize>)
        ensures
            final(dims)@ == strip_trailing_ones(old(dims)@),
    {
        let len: usize = dims.len();
        if len == 0 {
            proof {
                assert(strip_trailing_ones(dims@) =~= dims@);
            }
            return;
        }
        let mut keep: usize = len;
        proof {
            assert(dims@.subrange(0, len as int) =~= dims@);
        }
        while keep > 1 && dims[keep - 1] == 1
            invariant
                len == dims@.len(),
                1 <= keep <= len,
                trailing_ones(dims@) == (len - keep) + trailing_ones(
                    dims@.subrange(0, keep as int),
                ),
            decreases keep,
        {
            proof {
                assert(dims@.subrange(0, keep as int).drop_last() =~= dims@.subrange(
                    0,
                    keep - 1,
                ));
            }
            keep -= 1;
        }
        dims.truncate(keep);
    }

    /// Constructs a matrix with the given dimension sizes, filled with clones
    /// of `item`. The matrix is empty if no dimension is given or if the size
    /// of any dimension is 0.
    pub fn fill(dims: &[usize], item: T) -> (m: Self)
        requires
            shape_size(dims@) <= usize::MAX,
        ensures
            m@.wf(),
            m@.is_filled(dims@, item),
    {
        let mut kept: Vec<usize> = slice_to_vec(dims);
        Self::remove_trailing_size_one_dims(&mut kept);
        proof {
            lemma_strip_trailing_ones(dims@);
            lemma_strip_keeps_size(dims@);
            lemma_product_zero(dims@);
        }
        let size: usize = checked_size(kept.as_slice()).unwrap();
        let data: Vec<T> = vec![item; size];
        let dims: Vec<usize> = if size == 0 {
            Vec::new()
        } else {
            kept
        };
        Matrix { data, dims }
    }

    /// The size of each dimension, in canonical form.
    pub fn dims(&self) -> (d: &[usize])
        ensures
            d@ == self@.dims,
            self@.wf(),
    {
        proof {
            use_type_invariant(self);
        }
        self.dims.as_slice()
    }

    /// The elements, in row-major order.
    pub fn data(&self) -> (d: &[T])
        ensures
            d@ == self@.data,
            self@.wf(),
    {
        proof {
            use_type_invariant(self);
        }
        self.data.as_slice()
    }
}

/// A matrix filled over dimension sizes that are neither empty nor hold a zero
/// keeps at least its first dimension, has no trailing dimension of size 1
/// after the first, and has as many elements as the product of the sizes.
pub proof fn lemma_filled_nonempty<T: Clone>(m: MatrixView<T>, d: Seq<usize>, item: T)
    requires
        d.len() > 0,
        !has_zero(d),
        m.is_filled(d, item),
    ensures
        m.dims == strip_trailing_ones(d),
        m.dims.len() >= 1,
        is_stripped(m.dims),
        m.data.len() == product(d),
{
    lemma_strip_trailing_ones(d);
}

/// A matrix filled over dimension sizes that are empty or hold a zero has no
/// dimension and no element.
pub proof fn lemma_filled_empty<T: Clone>(m: MatrixView<T>, d: Seq<usize>, item: T)
    requires
        d.len() == 0 || has_zero(d),
        m.is_filled(d, item),
    ensures
        m.dims == Seq::<usize>::empty(),
        m.data == Seq::<T>::empty(),
{
    lemma_product_zero(d);
    assert(m.data =~= Seq::<T>::empty());
}

/// Filling over a matrix's own shape gives that shape again.
pub proof fn lemma_filled_over_canonical<T: Clone>(
    m: MatrixView<T>,
    n: MatrixView<T>,
    d: Seq<usize>,
    item: T,
)
    requires
        m.is_filled(d, item),
        n.is_filled(m.dims, item),
    ensures
        n.dims == m.dims,
        n.data.len() == m.data.len(),
{
    lemma_canonical_idempotent(d);
    lemma_canonical_dims(d);
}

/// `item` is a value that `T::default()` may return.
pub open spec fn is_default_value<T: Default>(item: T) -> bool {
    call_ensures(T::default, (), item)
}

impl<T: Clone + Default> Matrix<T> {
    /// Constructs a matrix with the given dimension sizes, filled with clones
    /// of the element type's default value.
    pub fn from_default(dims: &[usize]) -> (m: Self)
        requires
            shape_size(dims@) <= usize::MAX,
        ensures
            m@.wf(),
            exists|item: T| is_default_value(item) && #[trigger] m@.is_filled(dims@, item),
    {
        Self::fill(dims, T::default())
    }
}

} // verus!
