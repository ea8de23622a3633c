//! The distance used by the clustering models.

use vstd::prelude::*;

use crate::calculations::linear_algebra::dot_product;
use crate::scalar::Scalar;

verus! {

/// The pointwise difference of two sequences, cut to the shorter one.
pub open spec fn diff_model<T: Scalar>(a: Seq<T>, b: Seq<T>) -> Seq<T> {
    Seq::new(
        if a.len() <= b.len() {
            a.len()
        } else {
            b.len()
        },
        |i: int| a[i].model_sub(b[i]),
    )
}

/// What the distance computation returns: the difference vector folded
/// against itself (the squared Euclidean distance).
pub open spec fn eucleadian_distance_model<T: Scalar>(a: Seq<T>, b: Seq<T>) -> T {
    crate::calculations::linear_algebra::dot_model(diff_model(a, b), diff_model(a, b))
}

/// Computes the squared Euclidean distance between two slices, cut to the
/// shorter one.
pub fn eucleadian_distance<T: Scalar>(a: &[T], b: &[T]) -> (r: Result<T, &'static str>)
    ensures
        r is Ok,
        r matches Ok(v) ==> v == eucleadian_distance_model(a@, b@),
{
    let n = if a.len() <= b.len() {
        a.len()
    } else {
        b.len()
    };
    let mut tmp: Vec<T> = Vec::new();
    let mut i: usize = 0;
    while i < n
        invariant
            i <= n,
            n == (if a@.len() <= b@.len() {
                a@.len()
            } else {
                b@.len()
            }),
            tmp@.len() == i,
            forall|k: int| 0 <= k < i ==> #[trigger] tmp@[k] == a@[k].model_sub(b@[k]),
        decreases n - i,
    {
        tmp.push(a[i].minus(b[i]));
        i += 1;
    }
    proof {
        assert(tmp@ =~= diff_model(a@, b@));
    }

    match dot_product(tmp.as_slice(), tmp.as_slice()) {
        Ok(v) => Ok(v),
        Err(_) => {
            proof {
                assert(false);
            }
            Err("The vector size do not match")
        },
    }
}

} // verus!
