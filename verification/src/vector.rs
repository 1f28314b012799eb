//! Vectors and the dot product of two integer vectors.

use crate::text::fits_i64;
use vstd::prelude::*;

verus! {

/// A sequence of values held in a `Vec`.
pub struct Vector<T> {
    data: Vec<T>,
}

/// Why the dot product of two vectors could not be taken.
#[derive(Clone, Copy, Debug, PartialEq, Eq, Structural)]
pub enum VectorError {
    /// The two vectors differ in length.
    SizeMismatch,
}

impl VectorError {
    /// The error in words.
    pub fn message(&self) -> (s: String)
        ensures
            s@ == "Vector size mismatch"@,
    {
        "Vector size mismatch".to_string()
    }
}

impl<T> View for Vector<T> {
    type V = Seq<T>;

    closed spec fn view(&self) -> Seq<T> {
        self.data@
    }
}

impl<T> Vector<T> {
    /// Wraps `data` without changing it.
    pub fn new(data: Vec<T>) -> (v: Self)
        ensures
            v@ == data@,
    {
        Vector { data }
    }

    /// The number of entries.
    pub fn len(&self) -> (n: usize)
        ensures
            n == self@.len(),
    {
        self.data.len()
    }

    /// The entries as the `Vec` that holds them.
    pub fn as_vec(&self) -> (d: &Vec<T>)
        ensures
            d@ == self@,
    {
        &self.data
    }
}

/// The product of the entries of `a` and `b` at place `i`.
pub open spec fn product(a: Seq<i64>, b: Seq<i64>, i: int) -> int {
    a[i] * b[i]
}

/// The sum of the products of the first `n` entries of `a` with those of `b`.
pub open spec fn dot_upto(a: Seq<i64>, b: Seq<i64>, n: int) -> int
    decreases n,
{
    if n <= 0 {
        0
    } else {
        dot_upto(a, b, n - 1) + product(a, b, n - 1)
    }
}

/// The dot product of `a` and `b`, two sequences of one length.
pub open spec fn dot(a: Seq<i64>, b: Seq<i64>) -> int {
    dot_upto(a, b, a.len() as int)
}

/// Whether the `n`th product, and the sum of the first `n` products, can be
/// held in an `i64`.
pub open spec fn step_fits(a: Seq<i64>, b: Seq<i64>, n: int) -> bool {
    fits_i64(product(a, b, n - 1)) && fits_i64(dot_upto(a, b, n))
}

/// Whether the first `k` products, and the sums on the way over them, can
/// be held in an `i64`.
pub open spec fn can_sum_upto(a: Seq<i64>, b: Seq<i64>, k: int) -> bool {
    forall|n: int| 0 < n <= k ==> #[trigger] step_fits(a, b, n)
}

/// Whether the dot product of `a` and `b` can be summed up from the first
/// entry to the last in `i64`: each product and each sum on the way can be held.
pub open spec fn can_sum(a: Seq<i64>, b: Seq<i64>) -> bool {
    can_sum_upto(a, b, a.len() as int)
}

/// Whether `dot_product` may be called on `a` and `b`: they differ in
/// length, or their dot product can be summed up in `i64`.
pub fn fits_dot_product(a: &Vector<i64>, b: &Vector<i64>) -> (ok: bool)
    ensures
        ok == (a@.len() == b@.len() ==> can_sum(a@, b@)),
{
    if a.len() != b.len() {
        return true;
    }
    let mut sum: i64 = 0;
    let mut i: usize = 0;
    while i < a.len()
        invariant
            a@.len() == b@.len(),
            0 <= i <= a@.len(),
            sum == dot_upto(a@, b@, i as int),
            can_sum_upto(a@, b@, i as int),
        decreases a@.len() - i,
    {
        let left: i64 = a.data[i];
        let right: i64 = b.data[i];
        proof {
            assert(product(a@, b@, i as int) == left * right);
            assert(dot_upto(a@, b@, i + 1) == sum + product(a@, b@, i + 1 - 1));
        }
        let term = left.checked_mul(right);
        if term.is_none() {
            assert(!step_fits(a@, b@, i + 1));
            return false;
        }
        let next = sum.checked_add(term.unwrap());
        if next.is_none() {
            assert(!step_fits(a@, b@, i + 1));
            return false;
        }
        sum = next.unwrap();
        assert(step_fits(a@, b@, i + 1));
        i += 1;
    }
    true
}

/// The dot product of `a` and `b`, or an error where they differ in length.
pub fn dot_product(a: Vector<i64>, b: Vector<i64>) -> (r: Result<i64, VectorError>)
    requires
        a@.len() == b@.len() ==> can_sum(a@, b@),
    ensures
        a@.len() != b@.len() <==> r == Err::<i64, VectorError>(VectorError::SizeMismatch),
        a@.len() == b@.len() <==> r is Ok,
        r is Ok ==> r->Ok_0 == dot(a@, b@),
{
    if a.len() != b.len() {
        return Err(VectorError::SizeMismatch);
    }
    let mut sum: i64 = 0;
    let mut i: usize = 0;
    while i < a.len()
        invariant
            a@.len() == b@.len(),
            can_sum(a@, b@),
            0 <= i <= a@.len(),
            sum == dot_upto(a@, b@, i as int),
        decreases a@.len() - i,
    {
        proof {
            assert(step_fits(a@, b@, i + 1));
        }
        sum = sum + a.data[i] * b.data[i];
        i += 1;
    }
    Ok(sum)
}

} // verus!
