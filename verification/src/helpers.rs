//! Small numeric helpers shared by the models.

use vstd::prelude::*;

use crate::scalar::Scalar;

verus! {

/// The left fold of squared differences over the first `k` positions,
/// starting from zero; each difference is squared through the power
/// operation.
pub open spec fn squared_error_model<T: Scalar>(a: Seq<T>, b: Seq<T>, k: int) -> T
    decreases k,
{
    if k <= 0 {
        T::model_zero()
    } else {
        squared_error_model(a, b, k - 1).model_add(
            (a[k - 1].model_sub(b[k - 1])).model_powf(T::model_from(2)),
        )
    }
}

/// What the mean squared error routine returns: the square root of the
/// summed squared differences, divided by the length.
pub open spec fn mean_squared_error_model<T: Scalar>(a: Seq<T>, b: Seq<T>) -> T {
    squared_error_model(a, b, a.len() as int).model_sqrt().model_div(
        T::model_from(a.len() as int),
    )
}

/// Computes the mean squared error between two vectors; vectors of different
/// lengths are refused.
pub fn mean_squared_error<T: Scalar>(a: &[T], b: &[T]) -> (r: Result<T, &'static str>)
    ensures
        r is Err <==> a@.len() != b@.len(),
        r matches Ok(v) ==> v == mean_squared_error_model(a@, b@),
{
    if a.len() != b.len() {
        return Err("Sizes do not match");
    }

    let two = T::from_count(2);
    let mut error: T = T::zero();
    let mut i: usize = 0;
    while i < a.len()
        invariant
            i <= a@.len(),
            a@.len() == b@.len(),
            two == T::model_from(2),
            error == squared_error_model(a@, b@, i as int),
        decreases a@.len() - i,
    {
        error = error.plus((a[i].minus(b[i])).powf(two));
        i += 1;
    }

    let mse = error.sqrt().divided_by(T::from_count(a.len()));
    Ok(mse)
}

} // verus!
