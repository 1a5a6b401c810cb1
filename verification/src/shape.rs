//! Dimension sequences: their element count and their canonical form.
use vstd::prelude::*;

verus! {

/// The product of all entries of `d`; the empty product is 1.
pub open spec fn product(d: Seq<usize>) -> nat
    decreases d.len(),
{
    if d.len() == 0 {
        1
    } else {
        product(d.drop_last()) * (d.last() as nat)
    }
}

/// The number of elements of a matrix with dimension sizes `d`: the product
/// of the entries, and 0 where there is no dimension at all.
pub open spec fn shape_size(d: Seq<usize>) -> nat {
    if d.len() == 0 {
        0
    } else {
        product(d)
    }
}

/// Whether some entry of `d` is 0.
pub open spec fn has_zero(d: Seq<usize>) -> bool {
    exists|i: int| 0 <= i < d.len() && #[trigger] d[i] == 0
}

/// The length of the run of entries equal to 1 at the end of `d`, the entry
/// at index 0 never being counted.
pub open spec fn trailing_ones(d: Seq<usize>) -> nat
    decreases d.len(),
{
    if d.len() <= 1 || d.last() != 1 {
        0
    } else {
        1 + trailing_ones(d.drop_last())
    }
}

/// `d` without its trailing entries equal to 1; the entry at index 0 stays.
pub open spec fn strip_trailing_ones(d: Seq<usize>) -> Seq<usize> {
    d.subrange(0, d.len() - trailing_ones(d))
}

/// `d` has no trailing entry equal to 1 after index 0.
pub open spec fn is_stripped(d: Seq<usize>) -> bool {
    d.len() <= 1 || d.last() != 1
}

/// The shape that a matrix built from the dimension sizes `d` stores: empty
/// where `d` is empty or has a zero entry, and `d` without its trailing ones
/// otherwise.
pub open spec fn canonical_dims(d: Seq<usize>) -> Seq<usize> {
    if d.len() == 0 || has_zero(d) {
        Seq::empty()
    } else {
        strip_trailing_ones(d)
    }
}

/// `d` is a shape that a matrix can store: no zero entry, and no trailing
/// entry equal to 1 after index 0.
pub open spec fn is_canonical(d: Seq<usize>) -> bool {
    !has_zero(d) && is_stripped(d)
}

/// The run of trailing ones never reaches index 0.
pub proof fn lemma_trailing_ones_bound(d: Seq<usize>)
    ensures
        trailing_ones(d) <= d.len(),
        d.len() > 0 ==> trailing_ones(d) < d.len(),
    decreases d.len(),
{
    if d.len() > 1 && d.last() == 1 {
        lemma_trailing_ones_bound(d.drop_last());
    }
}

/// What stripping yields: a prefix of `d` that keeps index 0, has no trailing
/// one left to strip, and leaves out nothing but ones.
pub proof fn lemma_strip_trailing_ones(d: Seq<usize>)
    ensures
        strip_trailing_ones(d).len() <= d.len(),
        d.len() > 0 ==> strip_trailing_ones(d).len() >= 1,
        strip_trailing_ones(d) == d.subrange(0, strip_trailing_ones(d).len() as int),
        is_stripped(strip_trailing_ones(d)),
        forall|i: int| strip_trailing_ones(d).len() <= i < d.len() ==> d[i] == 1,
    decreases d.len(),
{
    lemma_trailing_ones_bound(d);
    if d.len() > 1 && d.last() == 1 {
        let p = d.drop_last();
        lemma_strip_trailing_ones(p);
        lemma_trailing_ones_bound(p);
        assert(strip_trailing_ones(d) =~= strip_trailing_ones(p));
        assert forall|i: int| strip_trailing_ones(d).len() <= i < d.len() implies d[i] == 1 by {
            if i < p.len() {
                assert(p[i] == d[i]);
            }
        }
    } else {
        assert(strip_trailing_ones(d) =~= d);
    }
}

/// A sequence with nothing to strip is left as it is.
pub proof fn lemma_strip_of_stripped(d: Seq<usize>)
    requires
        is_stripped(d),
    ensures
        strip_trailing_ones(d) == d,
{
    assert(strip_trailing_ones(d) =~= d);
}

/// Stripping twice is stripping once.
pub proof fn lemma_strip_idempotent(d: Seq<usize>)
    ensures
        strip_trailing_ones(strip_trailing_ones(d)) == strip_trailing_ones(d),
{
    lemma_strip_trailing_ones(d);
    lemma_strip_of_stripped(strip_trailing_ones(d));
}

/// The product is 0 exactly where some entry is 0.
pub proof fn lemma_product_zero(d: Seq<usize>)
    ensures
        product(d) == 0 <==> has_zero(d),
    decreases d.len(),
{
    if d.len() > 0 {
        let p = d.drop_last();
        lemma_product_zero(p);
        assert(product(d) == 0 <==> (product(p) == 0 || d.last() == 0)) by (nonlinear_arith)
            requires
                product(d) == product(p) * (d.last() as nat),
        ;
        if has_zero(p) {
            let i = choose|i: int| 0 <= i < p.len() && #[trigger] p[i] == 0;
            assert(d[i] == 0);
        }
        if d.last() == 0 {
            assert(d[d.len() - 1] == 0);
        }
        if has_zero(d) {
            let i = choose|i: int| 0 <= i < d.len() && #[trigger] d[i] == 0;
            if i < p.len() {
                assert(p[i] == 0);
            }
        }
    }
}

/// Without a zero entry, the product of a prefix is at most the product of
/// the whole.
pub proof fn lemma_product_prefix(d: Seq<usize>, k: int)
    requires
        0 <= k <= d.len(),
        !has_zero(d),
    ensures
        product(d.subrange(0, k)) <= product(d),
    decreases d.len() - k,
{
    if k == d.len() {
        assert(d.subrange(0, k) =~= d);
    } else {
        let p = d.drop_last();
        assert(!has_zero(p)) by {
            if has_zero(p) {
                let i = choose|i: int| 0 <= i < p.len() && #[trigger] p[i] == 0;
                assert(d[i] == 0);
            }
        }
        lemma_product_prefix(p, k);
        assert(p.subrange(0, k) =~= d.subrange(0, k));
        assert(d[d.len() - 1] != 0);
        assert(product(p) <= product(p) * (d.last() as nat)) by (nonlinear_arith)
            requires
                d.last() >= 1,
        ;
    }
}

/// The product of a prefix extended by one entry.
pub proof fn lemma_product_step(d: Seq<usize>, k: int)
    requires
        0 <= k < d.len(),
    ensures
        product(d.subrange(0, k + 1)) == product(d.subrange(0, k)) * (d[k] as nat),
{
    assert(d.subrange(0, k + 1).drop_last() =~= d.subrange(0, k));
}

/// Stripping trailing ones changes neither the product nor the element count.
pub proof fn lemma_strip_keeps_size(d: Seq<usize>)
    ensures
        product(strip_trailing_ones(d)) == product(d),
        shape_size(strip_trailing_ones(d)) == shape_size(d),
        has_zero(strip_trailing_ones(d)) <==> has_zero(d),
    decreases d.len(),
{
    lemma_trailing_ones_bound(d);
    if d.len() > 1 && d.last() == 1 {
        let p = d.drop_last();
        lemma_strip_keeps_size(p);
        lemma_trailing_ones_bound(p);
        assert(strip_trailing_ones(d) =~= strip_trailing_ones(p));
        assert(product(d) == product(p)) by (nonlinear_arith)
            requires
                product(d) == product(p) * (d.last() as nat),
                d.last() == 1,
        ;
        lemma_product_zero(d);
        lemma_product_zero(p);
    } else {
        assert(strip_trailing_ones(d) =~= d);
    }
}

/// What canonicalization yields is canonical, has as many elements as the
/// dimension sizes it came from, and is empty exactly where that count is 0.
pub proof fn lemma_canonical_dims(d: Seq<usize>)
    ensures
        is_canonical(canonical_dims(d)),
        shape_size(canonical_dims(d)) == shape_size(d),
        canonical_dims(d).len() == 0 <==> shape_size(d) == 0,
{
    lemma_strip_trailing_ones(d);
    lemma_strip_keeps_size(d);
    lemma_product_zero(d);
}

/// A canonical shape is its own canonical form.
pub proof fn lemma_canonical_of_canonical(d: Seq<usize>)
    requires
        is_canonical(d),
    ensures
        canonical_dims(d) == d,
{
    lemma_strip_of_stripped(d);
    assert(canonical_dims(d) =~= d);
}

/// Canonicalizing twice is canonicalizing once.
pub proof fn lemma_canonical_idempotent(d: Seq<usize>)
    ensures
        canonical_dims(canonical_dims(d)) == canonical_dims(d),
{
    lemma_canonical_dims(d);
    lemma_canonical_of_canonical(canonical_dims(d));
}

/// The element count of the dimension sizes `dims`, or `None` where it is
/// more than a `usize` holds.
pub fn checked_size(dims: &[usize]) -> (size: Option<usize>)
    ensures
        size == (if shape_size(dims@) <= usize::MAX {
            Some(shape_size(dims@) as usize)
        } else {
            None
        }),
{
    let n: usize = dims.len();
    if n == 0 {
        return Some(0);
    }
    let mut i: usize = 0;
    while i < n
        invariant
            n == dims@.len(),
            i <= n,
            forall|j: int| 0 <= j < i ==> dims@[j] != 0,
        decreases n - i,
    {
        if dims[i] == 0 {
            proof {
                lemma_product_zero(dims@);
            }
            return Some(0);
        }
        i += 1;
    }
    let mut acc: usize = 1;
    i = 0;
    while i < n
        invariant
            n == dims@.len(),
            i <= n,
            !has_zero(dims@),
            acc == product(dims@.subrange(0, i as int)),
        decreases n - i,
    {
        proof {
            lemma_product_step(dims@, i as int);
            lemma_product_prefix(dims@, i + 1);
        }
        match acc.checked_mul(dims[i]) {
            Some(next) => {
                acc = next;
            },
            None => {
                return None;
            },
        }
        i += 1;
    }
    proof {
        assert(dims@.subrange(0, n as int) =~= dims@);
    }
    Some(acc)
}

/// Whether two shapes are the same: as many dimensions, each of the same size.
pub fn same_dims(a: &[usize], b: &[usize]) -> (same: bool)
    ensures
        same == (a@ == b@),
{
    let n: usize = a.len();
    if n != b.len() {
        return false;
    }
    let mut i: usize = 0;
    while i < n
        invariant
            n == a@.len(),
            n == b@.len(),
            i <= n,
            forall|j: int| 0 <= j < i ==> a@[j] == b@[j],
        decreases n - i,
    {
        if a[i] != b[i] {
            return false;
        }
        i += 1;
    }
    proof {
        assert(a@ =~= b@);
    }
    true
}

} // verus!
