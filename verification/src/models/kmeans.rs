//! K-means++ with rank-heuristic seeding and Lloyd's iteration.
//!
//! The seeding picks the first centroid with a seeded deterministic
//! generator and each further centroid by the highest rank sum across the
//! already chosen ones — a deliberate rank-based variant whose fixed-seed
//! outputs are part of the crate's behaviour.
//!
//! The clustering measures every distance with the squared Euclidean
//! distance; the verifier takes no calls through function values, so the
//! distance is fixed here rather than handed in by the caller.

use vstd::prelude::*;

use rand::Rng;
use rand::SeedableRng;

use crate::calculations::matrix::Matrix;
use crate::models::distances::eucleadian_distance;
use crate::scalar::Scalar;

verus! {

/// The first draw below `n` of the seeded deterministic generator. The
/// generator is a pure function of the seed, so the draw depends on the
/// arguments alone and is the same in every process.
pub uninterp spec fn chacha_first_draw(seed: u64, n: int) -> usize;

/// Relies on rand_core's `SeedableRng::seed_from_u64` for
/// `rand_chacha::ChaCha8Rng` (a default built from pure wrapping
/// arithmetic, the same generator for the same seed) and on
/// `rand::Rng::gen_range` over `0..n`, which panics on an empty range and
/// otherwise returns a value of the range, so strictly below `n`.
#[verifier::external_body]
fn seeded_draw_below(seed: u64, n: usize) -> (r: usize)
    requires
        n > 0,
    ensures
        r < n,
        r == chacha_first_draw(seed, n as int),
{
    let mut rng = rand_chacha::ChaCha8Rng::seed_from_u64(seed);
    rng.gen_range(0..n)
}

/// A vector of `n` zero scalars.
fn zero_vector<T: Scalar>(n: usize) -> (v: Vec<T>)
    ensures
        v@.len() == n,
        forall|i: int| 0 <= i < n ==> #[trigger] v@[i] == T::model_zero(),
{
    let mut v: Vec<T> = Vec::new();
    let mut i: usize = 0;
    while i < n
        invariant
            i <= n,
            v@.len() == i,
            forall|q: int| 0 <= q < i ==> #[trigger] v@[q] == T::model_zero(),
        decreases n - i,
    {
        v.push(T::zero());
        i += 1;
    }
    v
}

/// Whether the vector is a copy of some row of the data.
pub open spec fn is_data_row<T>(v: Vec<T>, data: Matrix<T>) -> bool {
    exists|i: int| 0 <= i < data.rows && v@ == #[trigger] data.row_model(i)
}

/// Whether column `i` of the indicator rows has exactly one set entry, at a
/// row below `k`.
pub open spec fn one_hot_column(z: Seq<Vec<u8>>, k: int, i: int) -> bool {
    &&& exists|c: int| 0 <= c < k && #[trigger] z[c]@[i] == 1
    &&& forall|c1: int, c2: int|
        0 <= c1 < k && 0 <= c2 < k && #[trigger] z[c1]@[i] == 1 && #[trigger] z[c2]@[i] == 1
            ==> c1 == c2
}

/// The count of samples an indicator row claims, folded as the update step
/// counts them: a one added per claimed sample.
pub open spec fn hard_total_model<T: Scalar>(zrow: Seq<u8>, k: int) -> T
    decreases k,
{
    if k <= 0 {
        T::model_zero()
    } else {
        let prev = hard_total_model::<T>(zrow, k - 1);
        if zrow[k - 1] == 1 {
            prev.model_add(T::model_one())
        } else {
            prev
        }
    }
}

/// The sum of coordinate `w` over the samples an indicator row claims,
/// folded in sample order.
pub open spec fn hard_coord_sum_model<T: Scalar>(
    data: Matrix<T>,
    zrow: Seq<u8>,
    w: int,
    k: int,
) -> T
    decreases k,
{
    if k <= 0 {
        T::model_zero()
    } else {
        let prev = hard_coord_sum_model(data, zrow, w, k - 1);
        if zrow[k - 1] == 1 {
            prev.model_add(data.ent(k - 1, w))
        } else {
            prev
        }
    }
}

/// The same count, folded over an assignment vector instead of an indicator
/// row.
pub open spec fn assign_total_model<T: Scalar>(assign: Seq<usize>, c: int, k: int) -> T
    decreases k,
{
    if k <= 0 {
        T::model_zero()
    } else {
        let prev = assign_total_model::<T>(assign, c, k - 1);
        if assign[k - 1] == c {
            prev.model_add(T::model_one())
        } else {
            prev
        }
    }
}

/// The same coordinate sum, folded over an assignment vector instead of an
/// indicator row.
pub open spec fn assign_coord_sum_model<T: Scalar>(
    data: Matrix<T>,
    assign: Seq<usize>,
    c: int,
    w: int,
    k: int,
) -> T
    decreases k,
{
    if k <= 0 {
        T::model_zero()
    } else {
        let prev = assign_coord_sum_model(data, assign, c, w, k - 1);
        if assign[k - 1] == c {
            prev.model_add(data.ent(k - 1, w))
        } else {
            prev
        }
    }
}

/// An indicator row that marks exactly the samples an assignment vector
/// sends to `c` counts and sums the same way the assignment vector does.
proof fn lemma_hard_folds_agree<T: Scalar>(
    data: Matrix<T>,
    zrow: Seq<u8>,
    assign: Seq<usize>,
    c: int,
    w: int,
    k: int,
)
    requires
        forall|i: int| 0 <= i < k ==> ((#[trigger] zrow[i]) == 1 <==> assign[i] == c),
    ensures
        hard_total_model::<T>(zrow, k) == assign_total_model::<T>(assign, c, k),
        hard_coord_sum_model(data, zrow, w, k) == assign_coord_sum_model(data, assign, c, w, k),
    decreases k,
{
    if k > 0 {
        lemma_hard_folds_agree(data, zrow, assign, c, w, k - 1);
    }
}

/// The distance-minimizing centroid scan for sample `j`: the running pair
/// starts at centroid zero and is replaced exactly when a later centroid's
/// distance is strictly smaller, so the lowest index wins ties and
/// incomparable distances.
pub open spec fn closest_model<T: Scalar>(
    data: Matrix<T>,
    cents: Seq<Vec<T>>,
    j: int,
    k: int,
) -> (usize, T)
    decreases k,
{
    if k <= 1 {
        (
            0usize,
            crate::models::distances::eucleadian_distance_model(data.row_model(j), cents[0]@),
        )
    } else {
        let prev = closest_model(data, cents, j, k - 1);
        let d = crate::models::distances::eucleadian_distance_model(
            data.row_model(j),
            cents[k - 1]@,
        );
        if d.model_lt(prev.1) {
            ((k - 1) as usize, d)
        } else {
            prev
        }
    }
}

/// Centroid lists with equal coordinate rows give the same scan.
proof fn lemma_closest_congruence<T: Scalar>(
    data: Matrix<T>,
    c1: Seq<Vec<T>>,
    c2: Seq<Vec<T>>,
    j: int,
    k: int,
)
    requires
        forall|c: int| 0 <= c < k ==> (#[trigger] c1[c])@ == c2[c]@,
        k >= 1,
    ensures
        closest_model(data, c1, j, k) == closest_model(data, c2, j, k),
    decreases k,
{
    if k > 1 {
        lemma_closest_congruence(data, c1, c2, j, k - 1);
    }
}

/// Saturating addition on machine integers, as the rank accumulation
/// performs it.
pub open spec fn sat_add(a: usize, b: int) -> usize {
    if a + b <= usize::MAX {
        (a + b) as usize
    } else {
        usize::MAX
    }
}

/// The rank contribution of one sorted distance list to bin `b`, over the
/// first `m` positions, continued from `start`: each position whose entry
/// names `b` adds its rank.
pub open spec fn rank_contrib<T>(list: Seq<(usize, T)>, b: int, m: int, start: usize) -> usize
    decreases m,
{
    if m <= 0 {
        start
    } else {
        sat_add(
            rank_contrib(list, b, m - 1, start),
            if list[m - 1].0 == b {
                m - 1
            } else {
                0
            },
        )
    }
}

/// The accumulated rank sum of bin `b` over the chosen rows' distance
/// lists, in choice order.
pub open spec fn rank_sum_model<T>(
    dists: Seq<Seq<(usize, T)>>,
    chosen: Seq<usize>,
    n: int,
    b: int,
) -> usize
    decreases chosen.len(),
{
    if chosen.len() == 0 {
        0
    } else {
        rank_contrib(
            dists[chosen.last() as int],
            b,
            n,
            rank_sum_model(dists, chosen.drop_last(), n, b),
        )
    }
}

/// A valid sorted distance list for row `f`: a permutation of all rows
/// paired with their distance from row `f`, with every adjacent pair of
/// distances in order.
pub open spec fn is_sorted_dist_list<T: Scalar>(
    list: Seq<(usize, T)>,
    data: Matrix<T>,
    f: int,
) -> bool {
    &&& list.len() == data.rows
    &&& list.to_multiset() == Seq::new(
        data.rows as nat,
        |r: int|
            (
                r as usize,
                crate::models::distances::eucleadian_distance_model(
                    data.row_model(f),
                    data.row_model(r),
                ),
            ),
    ).to_multiset()
    &&& forall|q: int| 0 <= q < list.len() - 1 ==> #[trigger] ordered_pair(list[q].1, list[q + 1].1)
}

/// The chosen rows and distance lists witnessing the seeding rule: the
/// first chosen row is the seeded draw, the lists are valid sorted distance
/// lists, each next chosen row carries a maximal accumulated rank sum, and
/// the centroids copy the chosen rows.
pub open spec fn rank_heuristic_witness<T: Scalar>(
    data: Matrix<T>,
    seed: u64,
    centroids: Seq<Vec<T>>,
    k: int,
    nodes: Seq<usize>,
    dists: Seq<Seq<(usize, T)>>,
) -> bool {
    &&& nodes.len() == k
    &&& forall|c: int| 0 <= c < k ==> #[trigger] nodes[c] < data.rows
    &&& nodes[0] == chacha_first_draw(seed, data.rows as int)
    &&& dists.len() == data.rows
    &&& forall|f: int| 0 <= f < data.rows ==> #[trigger] is_sorted_dist_list(dists[f], data, f)
    &&& forall|c: int, b: int|
        1 <= c < k && 0 <= b < data.rows ==> #[trigger] rank_sum_model(
            dists,
            nodes.take(c),
            data.rows as int,
            b,
        ) <= rank_sum_model(dists, nodes.take(c), data.rows as int, nodes[c] as int)
    &&& forall|c: int|
        0 <= c < k ==> (#[trigger] centroids[c])@ == data.row_model(nodes[c] as int)
}

/// The seeding rule: the first chosen row is the seeded draw; each next
/// chosen row carries a maximal accumulated rank sum over some valid
/// sorted distance lists (which list stands for a row is fixed only up to
/// the order of equal distances).
pub open spec fn seeded_by_rank_heuristic<T: Scalar>(
    data: Matrix<T>,
    seed: u64,
    centroids: Seq<Vec<T>>,
    k: int,
) -> bool {
    exists|nodes: Seq<usize>, dists: Seq<Seq<(usize, T)>>|
        #[trigger] rank_heuristic_witness(data, seed, centroids, k, nodes, dists)
}

/// In a descending-sorted list of bins the first entry tops every entry.
proof fn lemma_first_is_max(s: Seq<(usize, usize)>, q: int)
    requires
        s.len() >= 1,
        0 <= q < s.len(),
        forall|p: int| 0 <= p < s.len() - 1 ==> (#[trigger] s[p]).1 >= s[p + 1].1,
    ensures
        s[0].1 >= s[q].1,
    decreases q,
{
    if q > 0 {
        lemma_first_is_max(s, q - 1);
    }
}

/// The K-means state: the centroid list and, after a fit, the hard
/// assignment indicator.
pub struct Kmeans<T: 'static> {
    /// One coordinate vector per centroid.
    pub centroids: Vec<Vec<T>>,
    /// Number of centroids asked for.
    pub k: usize,
    /// After a fit: one indicator row per centroid, one column per sample,
    /// each column holding exactly one set entry.
    pub final_z: Vec<Vec<u8>>,
    /// Whether the last fit ended at a fixed point of the assignment (as
    /// every real run does), rather than at the defensive round cap.
    pub converged: Ghost<bool>,
}

/// Exchanging two positions of a sequence leaves its multiset of elements
/// unchanged.
proof fn lemma_swap_keeps_multiset<A>(s: Seq<A>, i: int, j: int)
    requires
        0 <= i < s.len(),
        0 <= j < s.len(),
        i != j,
    ensures
        s.update(i, s[j]).update(j, s[i]).to_multiset() == s.to_multiset(),
{
    broadcast use vstd::seq_lib::group_to_multiset_ensures;
    broadcast use vstd::multiset::group_multiset_axioms;
    broadcast use vstd::multiset::group_multiset_properties;

    let s1 = s.update(i, s[j]);
    assert(s.contains(s[i]));
    assert(s1.contains(s1[j]));
    assert(s1.to_multiset() == s.to_multiset().insert(s[j]).remove(s[i]));
    assert(s1.update(j, s[i]).to_multiset() == s1.to_multiset().insert(s[i]).remove(s1[j]));
    assert(s1.update(j, s[i]).to_multiset() =~= s.to_multiset());
}

/// Two scalars may stand in this order: the right one undercuts the left
/// one only if the order is itself contradictory on the pair. For a strict
/// order (every rounded type outside its incomparable values) this says the
/// pair is not strictly descending.
pub open spec fn ordered_pair<T: Scalar>(x: T, y: T) -> bool {
    y.model_lt(x) ==> x.model_lt(y)
}

/// Sorts the pairs by their second component through insertion, smallest
/// first; the result holds exactly the elements of the input, with every
/// adjacent pair in order.
fn sort_pairs_by_dist<T: Scalar>(v: &mut Vec<(usize, T)>)
    ensures
        final(v)@.len() == old(v)@.len(),
        final(v)@.to_multiset() == old(v)@.to_multiset(),
        forall|i: int| 0 <= i < final(v)@.len() ==> old(v)@.contains(#[trigger] final(v)@[i]),
        forall|q: int|
            0 <= q < final(v)@.len() - 1 ==> #[trigger] ordered_pair(
                final(v)@[q].1,
                final(v)@[q + 1].1,
            ),
{
    let mut i: usize = 1;
    while i < v.len()
        invariant
            v@.len() == old(v)@.len(),
            v@.to_multiset() == old(v)@.to_multiset(),
            forall|q: int| 0 <= q < v@.len() ==> old(v)@.contains(#[trigger] v@[q]),
            forall|q: int|
                0 <= q < i - 1 && q < v@.len() - 1 ==> #[trigger] ordered_pair(
                    v@[q].1,
                    v@[q + 1].1,
                ),
        decreases v@.len() - i,
    {
        let mut j: usize = i;
        let mut done = false;
        while j > 0 && !done
            invariant
                j <= i,
                i < v@.len(),
                v@.len() == old(v)@.len(),
                v@.to_multiset() == old(v)@.to_multiset(),
                forall|q: int| 0 <= q < v@.len() ==> old(v)@.contains(#[trigger] v@[q]),
                forall|q: int|
                    0 <= q < i && q != j - 1 ==> #[trigger] ordered_pair(v@[q].1, v@[q + 1].1),
                1 <= j < i ==> ordered_pair(v@[j - 1].1, v@[j + 1].1),
                done && j >= 1 ==> ordered_pair(v@[j - 1].1, v@[j as int].1),
            decreases j + (if done {
                0int
            } else {
                1int
            }),
        {
            let a = v[j - 1];
            let b = v[j];
            if b.1.lt(a.1) {
                let ghost pre = v@;
                v[j - 1] = b;
                v[j] = a;
                proof {
                    lemma_swap_keeps_multiset(pre, j - 1, j as int);
                    assert(old(v)@.contains(a));
                    assert(old(v)@.contains(b));
                    assert(ordered_pair(v@[j - 1].1, v@[j as int].1));
                    let jj = j as int;
                    if j >= 2 {
                        assert(0 <= jj - 2 < i && jj - 2 != jj - 1);
                        assert(ordered_pair(pre[jj - 2].1, pre[jj - 2 + 1].1));
                    }
                    if j < i {
                        assert(ordered_pair(pre[jj - 1].1, pre[jj + 1].1));
                    }
                }
                j -= 1;
            } else {
                proof {
                    assert(ordered_pair(v@[j - 1].1, v@[j as int].1));
                }
                done = true;
            }
        }
        i += 1;
    }
}

/// Sorts the pairs by their second component through insertion, largest
/// first; the result holds exactly the elements of the input, in descending
/// order of the second component.
fn sort_bins_desc(v: &mut Vec<(usize, usize)>)
    ensures
        final(v)@.len() == old(v)@.len(),
        final(v)@.to_multiset() == old(v)@.to_multiset(),
        forall|i: int| 0 <= i < final(v)@.len() ==> old(v)@.contains(#[trigger] final(v)@[i]),
        forall|q: int|
            0 <= q < final(v)@.len() - 1 ==> (#[trigger] final(v)@[q]).1 >= final(v)@[q + 1].1,
{
    let mut i: usize = 1;
    while i < v.len()
        invariant
            v@.len() == old(v)@.len(),
            v@.to_multiset() == old(v)@.to_multiset(),
            forall|q: int| 0 <= q < v@.len() ==> old(v)@.contains(#[trigger] v@[q]),
            forall|q: int|
                0 <= q < i - 1 && q < v@.len() - 1 ==> (#[trigger] v@[q]).1 >= v@[q + 1].1,
        decreases v@.len() - i,
    {
        let mut j: usize = i;
        let mut done = false;
        while j > 0 && !done
            invariant
                j <= i,
                i < v@.len(),
                v@.len() == old(v)@.len(),
                v@.to_multiset() == old(v)@.to_multiset(),
                forall|q: int| 0 <= q < v@.len() ==> old(v)@.contains(#[trigger] v@[q]),
                forall|q: int|
                    0 <= q < i && q != j - 1 ==> (#[trigger] v@[q]).1 >= v@[q + 1].1,
                1 <= j < i ==> v@[j - 1].1 >= v@[j + 1].1,
                done && j >= 1 ==> v@[j - 1].1 >= v@[j as int].1,
            decreases j + (if done {
                0int
            } else {
                1int
            }),
        {
            let a = v[j - 1];
            let b = v[j];
            if b.1 > a.1 {
                let ghost pre = v@;
                v[j - 1] = b;
                v[j] = a;
                proof {
                    lemma_swap_keeps_multiset(pre, j - 1, j as int);
                    assert(old(v)@.contains(a));
                    assert(old(v)@.contains(b));
                }
                j -= 1;
            } else {
                done = true;
            }
        }
        i += 1;
    }
}

impl<T: Scalar> Kmeans<T> {
    /// Seeds the centroids: the first is a data row drawn with the seeded
    /// generator; each further one is the data row with the highest rank sum
    /// over the already chosen centroids' sorted distance lists. Every
    /// centroid is a copy of some data row.
    pub fn init(k: usize, data: &Matrix<T>, seed: u64) -> (r: Kmeans<T>)
        requires
            data.wf(),
            data.rows >= 1,
            k >= 1,
        ensures
            r.centroids@.len() == k,
            r.centroids@[0]@ == data.row_model(chacha_first_draw(seed, data.rows as int) as int),
            seeded_by_rank_heuristic(*data, seed, r.centroids@, k as int),
            forall|c: int| 0 <= c < k ==> is_data_row(#[trigger] r.centroids@[c], *data),
            forall|c: int| 0 <= c < k ==> (#[trigger] r.centroids@[c])@.len() == data.columns,
            r.final_z@.len() == 0,
            r.wf_k(),
            r.k_of() == k,
    {
        let n = data.len();

        // One sorted (index, distance) list per data row.
        let mut distances: Vec<Vec<(usize, T)>> = Vec::new();
        let mut f: usize = 0;
        while f < n
            invariant
                f <= n,
                n == data.rows,
                data.wf(),
                distances@.len() == f,
                forall|q: int, e: int|
                    0 <= q < f && 0 <= e < distances@[q]@.len() ==> (#[trigger] distances@[q]@[e]).0
                        < n,
                forall|q: int| 0 <= q < f ==> (#[trigger] distances@[q])@.len() == n,
                forall|q: int|
                    0 <= q < f ==> is_sorted_dist_list((#[trigger] distances@[q])@, *data, q),
            decreases n - f,
        {
            let from_row = data.get_row(f);
            let mut x: Vec<(usize, T)> = Vec::new();
            let mut rr: usize = 0;
            while rr < n
                invariant
                    rr <= n,
                    n == data.rows,
                    data.wf(),
                    from_row@ == data.row_model(f as int),
                    f < n,
                    x@.len() == rr,
                    forall|e: int| 0 <= e < rr ==> (#[trigger] x@[e]).0 < n,
                    forall|e: int|
                        0 <= e < rr ==> (#[trigger] x@[e]) == (
                            e as usize,
                            crate::models::distances::eucleadian_distance_model(
                                data.row_model(f as int),
                                data.row_model(e),
                            ),
                        ),
                decreases n - rr,
            {
                let other = data.get_row(rr);
                let d = match eucleadian_distance(from_row.as_slice(), other.as_slice()) {
                    Ok(d) => d,
                    Err(_) => {
                        proof {
                            assert(false);
                        }
                        T::zero()
                    },
                };
                x.push((rr, d));
                rr += 1;
            }
            let ghost xpre = x;
            sort_pairs_by_dist(&mut x);
            proof {
                assert forall|e: int| 0 <= e < x@.len() implies (#[trigger] x@[e]).0 < n by {
                    let w = x@[e];
                    assert(xpre@.contains(w));
                    let q = choose|q: int| 0 <= q < xpre@.len() && xpre@[q] == w;
                    assert((xpre@[q]).0 < n);
                }
                assert(xpre@ =~= Seq::new(
                    data.rows as nat,
                    |r: int|
                        (
                            r as usize,
                            crate::models::distances::eucleadian_distance_model(
                                data.row_model(f as int),
                                data.row_model(r),
                            ),
                        ),
                ));
                assert(is_sorted_dist_list(x@, *data, f as int));
            }
            distances.push(x);
            f += 1;
        }

        let ghost gd: Seq<Seq<(usize, T)>> = Seq::new(n as nat, |q: int| distances@[q]@);
        proof {
            assert forall|q: int| 0 <= q < n implies is_sorted_dist_list(
                #[trigger] gd[q],
                *data,
                q,
            ) by {
                assert(gd[q] == distances@[q]@);
            }
        }

        let mut nodes: Vec<usize> = Vec::new();
        nodes.push(seeded_draw_below(seed, n));

        if k > 1 {
            let mut picked: usize = 1;
            while picked < k
                invariant
                    1 <= picked <= k,
                    n == data.rows,
                    n >= 1,
                    data.wf(),
                    distances@.len() == n,
                    forall|q: int, e: int|
                        0 <= q < n && 0 <= e < distances@[q]@.len() ==> (
                        #[trigger] distances@[q]@[e]).0 < n,
                    forall|q: int| 0 <= q < n ==> (#[trigger] distances@[q])@.len() == n,
                    nodes@.len() == picked,
                    forall|e: int| 0 <= e < nodes@.len() ==> #[trigger] nodes@[e] < n,
                    nodes@[0] == chacha_first_draw(seed, n as int),
                    gd == Seq::new(n as nat, |q: int| distances@[q]@),
                    forall|c2: int, b: int|
                        1 <= c2 < picked && 0 <= b < n ==> #[trigger] rank_sum_model(
                            gd,
                            nodes@.take(c2),
                            n as int,
                            b,
                        ) <= rank_sum_model(gd, nodes@.take(c2), n as int, nodes@[c2] as int),
                decreases k - picked,
            {
                let mut bins: Vec<(usize, usize)> = Vec::new();
                let mut ff: usize = 0;
                while ff < n
                    invariant
                        ff <= n,
                        bins@.len() == ff,
                        forall|e: int| 0 <= e < ff ==> (#[trigger] bins@[e]).0 < n,
                        forall|e: int| 0 <= e < ff ==> (#[trigger] bins@[e]) == (e as usize, 0usize),
                    decreases n - ff,
                {
                    bins.push((ff, 0));
                    ff += 1;
                }
                proof {
                    assert(nodes@.take(0) =~= Seq::<usize>::empty());
                }

                let mut node_i: usize = 0;
                while node_i < nodes.len()
                    invariant
                        node_i <= nodes@.len(),
                        n >= 1,
                        distances@.len() == n,
                        forall|q: int, e: int|
                            0 <= q < n && 0 <= e < distances@[q]@.len() ==> (
                            #[trigger] distances@[q]@[e]).0 < n,
                        forall|q: int| 0 <= q < n ==> (#[trigger] distances@[q])@.len() == n,
                        forall|e: int| 0 <= e < nodes@.len() ==> #[trigger] nodes@[e] < n,
                        bins@.len() == n,
                        forall|e: int| 0 <= e < n ==> (#[trigger] bins@[e]).0 < n,
                        gd == Seq::new(n as nat, |q: int| distances@[q]@),
                        forall|b: int|
                            0 <= b < n ==> (#[trigger] bins@[b]) == (
                                b as usize,
                                rank_sum_model(gd, nodes@.take(node_i as int), n as int, b),
                            ),
                    decreases nodes@.len() - node_i,
                {
                    let node = nodes[node_i];
                    let list = &distances[node];
                    let mut ind: usize = 0;
                    while ind < list.len()
                        invariant
                            ind <= list@.len(),
                            node_i < nodes@.len(),
                            node == nodes@[node_i as int],
                            node < n,
                            list@ == distances@[nodes@[node_i as int] as int]@,
                            list@.len() == n,
                            forall|e: int| 0 <= e < list@.len() ==> (#[trigger] list@[e]).0 < n,
                            bins@.len() == n,
                            forall|e: int| 0 <= e < n ==> (#[trigger] bins@[e]).0 < n,
                            gd == Seq::new(n as nat, |q: int| distances@[q]@),
                            forall|b: int|
                                0 <= b < n ==> (#[trigger] bins@[b]) == (
                                    b as usize,
                                    rank_contrib(
                                        list@,
                                        b,
                                        ind as int,
                                        rank_sum_model(
                                            gd,
                                            nodes@.take(node_i as int),
                                            n as int,
                                            b,
                                        ),
                                    ),
                                ),
                        decreases list@.len() - ind,
                    {
                        let obj = list[ind];
                        let cur = bins[obj.0];
                        let bumped = if cur.1 <= usize::MAX - ind {
                            cur.1 + ind
                        } else {
                            usize::MAX
                        };
                        bins[obj.0] = (cur.0, bumped);
                        ind += 1;
                    }
                    proof {
                        assert(nodes@.take(node_i + 1).drop_last() =~= nodes@.take(node_i as int));
                        assert(nodes@.take(node_i + 1).last() == nodes@[node_i as int]);
                        assert(gd[node as int] == list@);
                        assert forall|b: int| 0 <= b < n implies (#[trigger] bins@[b]) == (
                            b as usize,
                            rank_sum_model(gd, nodes@.take(node_i + 1), n as int, b),
                        ) by {
                            assert(bins@[b].1 == rank_contrib(
                                list@,
                                b,
                                n as int,
                                rank_sum_model(gd, nodes@.take(node_i as int), n as int, b),
                            ));
                        }
                    }
                    node_i += 1;
                }

                let ghost bpre = bins;
                sort_bins_desc(&mut bins);
                proof {
                    assert forall|e: int| 0 <= e < bins@.len() implies (#[trigger] bins@[e]).0
                        < n by {
                        let w = bins@[e];
                        assert(bpre@.contains(w));
                        let q = choose|q: int| 0 <= q < bpre@.len() && bpre@[q] == w;
                        assert((bpre@[q]).0 < n);
                    }
                    // The first bin after the descending sort carries a
                    // maximal rank sum, and names the bin it was built for.
                    assert(nodes@.take(nodes@.len() as int) =~= nodes@);
                    assert(bpre@.contains(bins@[0]));
                    let w0 = choose|q: int| 0 <= q < bpre@.len() && bpre@[q] == bins@[0];
                    assert(bpre@[w0] == (
                        w0 as usize,
                        rank_sum_model(gd, nodes@.take(nodes@.len() as int), n as int, w0),
                    ));
                    assert(bins@[0].1 == rank_sum_model(gd, nodes@, n as int, bins@[0].0 as int));
                    assert forall|b: int| 0 <= b < n implies #[trigger] rank_sum_model(
                        gd,
                        nodes@,
                        n as int,
                        b,
                    ) <= rank_sum_model(gd, nodes@, n as int, bins@[0].0 as int) by {
                        broadcast use vstd::seq_lib::group_to_multiset_ensures;

                        assert(bpre@[b] == (
                            b as usize,
                            rank_sum_model(gd, nodes@.take(nodes@.len() as int), n as int, b),
                        ));
                        assert(bpre@.contains(bpre@[b]));
                        assert(bins@.to_multiset().count(bpre@[b]) > 0);
                        assert(bins@.contains(bpre@[b]));
                        let q = choose|q: int| 0 <= q < bins@.len() && bins@[q] == bpre@[b];
                        lemma_first_is_max(bins@, q);
                    }
                }
                let ghost oldnodes = nodes@;
                nodes.push(bins[0].0);
                proof {
                    assert(nodes@.take(picked as int) =~= oldnodes);
                    assert forall|c2: int, b: int|
                        1 <= c2 < picked + 1 && 0 <= b < n implies #[trigger] rank_sum_model(
                        gd,
                        nodes@.take(c2),
                        n as int,
                        b,
                    ) <= rank_sum_model(gd, nodes@.take(c2), n as int, nodes@[c2] as int) by {
                        assert(nodes@.take(c2) =~= oldnodes.take(c2));
                        if c2 < picked {
                            assert(rank_sum_model(gd, oldnodes.take(c2), n as int, b)
                                <= rank_sum_model(
                                gd,
                                oldnodes.take(c2),
                                n as int,
                                oldnodes[c2] as int,
                            ));
                        } else {
                            assert(oldnodes.take(c2) =~= oldnodes);
                        }
                    }
                }
                picked += 1;
            }
        }

        let mut centroids: Vec<Vec<T>> = Vec::new();
        let mut c: usize = 0;
        while c < nodes.len()
            invariant
                c <= nodes@.len(),
                data.wf(),
                n == data.rows,
                forall|e: int| 0 <= e < nodes@.len() ==> #[trigger] nodes@[e] < n,
                nodes@[0] == chacha_first_draw(seed, n as int),
                nodes@.len() >= 1,
                centroids@.len() == c,
                forall|e: int|
                    0 <= e < c ==> (#[trigger] centroids@[e])@ == data.row_model(
                        nodes@[e] as int,
                    ),
            decreases nodes@.len() - c,
        {
            let row = data.get_row(nodes[c]);
            centroids.push(row);
            c += 1;
        }

        let result = Kmeans { centroids, k, final_z: Vec::new(), converged: Ghost(false) };
        proof {
            assert forall|c2: int| 0 <= c2 < k implies is_data_row(
                #[trigger] result.centroids@[c2],
                *data,
            ) by {
                let w = nodes@[c2] as int;
                assert(0 <= w < data.rows && (result.centroids@[c2])@ == data.row_model(w));
            }
            assert forall|c2: int| 0 <= c2 < k implies (#[trigger] result.centroids@[c2])@.len()
                == data.columns by {
                data.lemma_row_model_ent(nodes@[c2] as int);
            }
            assert(nodes@.len() == k);
            assert(nodes@[0] == chacha_first_draw(seed, data.rows as int));
            assert forall|f2: int| 0 <= f2 < data.rows implies is_sorted_dist_list(
                #[trigger] gd[f2],
                *data,
                f2,
            ) by {
                assert(gd[f2] == distances@[f2]@);
            }
            assert forall|c2: int, b: int|
                1 <= c2 < k && 0 <= b < data.rows implies #[trigger] rank_sum_model(
                gd,
                nodes@.take(c2),
                data.rows as int,
                b,
            ) <= rank_sum_model(gd, nodes@.take(c2), data.rows as int, nodes@[c2] as int) by {}
            assert forall|c2: int| 0 <= c2 < k implies (#[trigger] result.centroids@[c2])@
                == data.row_model(nodes@[c2] as int) by {}
            assert(rank_heuristic_witness(*data, seed, result.centroids@, k as int, nodes@, gd));
            assert(seeded_by_rank_heuristic(*data, seed, result.centroids@, k as int));
        }
        result
    }

    /// The stored cluster count, as a mathematical integer.
    pub open spec fn k_of(self) -> int {
        self.k as int
    }

    /// The centroid list matches the stored cluster count.
    pub open spec fn wf_k(self) -> bool {
        self.centroids@.len() == self.k && self.k >= 1
    }

    /// Runs Lloyd's iteration until the hard assignment reaches a fixed
    /// point: each sample goes to the centroid with the smallest distance
    /// (first wins on ties and on incomparable distances), and each centroid
    /// moves to the mean of its samples. The resulting indicator has one row
    /// per centroid, one column per sample, and exactly one set entry per
    /// column.
    pub fn fit(&mut self, data: &Matrix<T>)
        requires
            old(self).wf_k(),
            data.wf(),
            data.rows >= 1,
            old(self).centroids@[0]@.len() == data.columns,
        ensures
            forall|c: int, w: int|
                0 <= c < final(self).k_of() && 0 <= w < data.columns ==> (
                #[trigger] final(self).centroids@[c]@[w]) == hard_coord_sum_model(
                    *data,
                    final(self).final_z@[c]@,
                    w,
                    data.rows as int,
                ).model_div(hard_total_model::<T>(final(self).final_z@[c]@, data.rows as int)),
            forall|c: int|
                0 <= c < final(self).k_of() ==> (#[trigger] final(self).centroids@[c])@.len()
                    == data.columns,
            final(self).wf_k(),
            final(self).k_of() == old(self).k_of(),
            final(self).centroids@.len() == old(self).centroids@.len(),
            final(self).final_z@.len() == old(self).k_of(),
            forall|c: int|
                0 <= c < final(self).final_z@.len() ==> (#[trigger] final(self).final_z@[c])@.len()
                    == data.rows,
            forall|c: int, i: int|
                0 <= c < final(self).final_z@.len() && 0 <= i < data.rows ==> (
                #[trigger] final(self).final_z@[c]@[i]) <= 1,
            forall|i: int|
                0 <= i < data.rows ==> #[trigger] one_hot_column(
                    final(self).final_z@,
                    final(self).k_of(),
                    i,
                ),
            final(self).converged@ ==> forall|j: int|
                0 <= j < data.rows ==> final(self).final_z@[closest_model(
                    *data,
                    final(self).centroids@,
                    j,
                    final(self).k_of(),
                ).0 as int]@[j] == 1,
    {
        let len_data: usize = data.len();
        let width = self.centroids[0].len();

        let mut prev_assign: Vec<usize> = Vec::new();
        let mut has_prev = false;
        let mut assign: Vec<usize> = Vec::new();

        let mut stable = false;

        // Hard k-means reaches a fixed point; the cap is a defensive bound
        // that no run approaches.
        let mut iterations: usize = 0;
        while !stable && iterations < usize::MAX
            invariant
                iterations > 0 ==> has_prev,
                self.wf_k(),
                self.k == old(self).k,
                self.centroids@.len() == old(self).centroids@.len(),
                data.wf(),
                data.rows >= 1,
                len_data == data.rows,
                width == data.columns,
                has_prev ==> prev_assign@.len() == len_data,
                has_prev ==> forall|i: int|
                    0 <= i < len_data ==> #[trigger] prev_assign@[i] < self.k,
                stable ==> has_prev,
                has_prev ==> forall|c: int|
                    0 <= c < self.k ==> (#[trigger] self.centroids@[c])@.len() == width,
                has_prev ==> forall|c: int, w: int|
                    0 <= c < self.k && 0 <= w < width ==> (#[trigger] self.centroids@[c]@[w])
                        == assign_coord_sum_model(
                        *data,
                        prev_assign@,
                        c,
                        w,
                        data.rows as int,
                    ).model_div(assign_total_model::<T>(prev_assign@, c, data.rows as int)),
                stable ==> forall|j: int|
                    0 <= j < len_data ==> #[trigger] prev_assign@[j] == closest_model(
                        *data,
                        self.centroids@,
                        j,
                        self.k as int,
                    ).0,
            decreases usize::MAX - iterations,
        {
            let ghost cents_before = self.centroids@;
            // Assignment step.
            assign = Vec::new();
            let mut point: usize = 0;
            let mut changed = false;
            while point < len_data
                invariant
                    point <= len_data,
                    self.wf_k(),
                    data.wf(),
                    len_data == data.rows,
                    assign@.len() == point,
                    forall|i: int| 0 <= i < point ==> #[trigger] assign@[i] < self.k,
                    forall|i: int|
                        0 <= i < point ==> #[trigger] assign@[i] == closest_model(
                            *data,
                            self.centroids@,
                            i,
                            self.k as int,
                        ).0,
                    has_prev ==> prev_assign@.len() == len_data,
                    !changed ==> point == 0 || has_prev,
                    !changed ==> forall|q: int|
                        0 <= q < point ==> #[trigger] prev_assign@[q] == assign@[q],
                decreases len_data - point,
            {
                let point_row = data.get_row(point);
                let mut closest_ind: usize = 0;
                let mut closest_dist: T = match eucleadian_distance(
                    point_row.as_slice(),
                    self.centroids[0].as_slice(),
                ) {
                    Ok(d) => d,
                    Err(_) => {
                        proof {
                            assert(false);
                        }
                        T::zero()
                    },
                };
                let mut ind: usize = 1;
                while ind < self.k
                    invariant
                        1 <= ind <= self.k,
                        self.wf_k(),
                        data.wf(),
                        point < data.rows,
                        point_row@ == data.row_model(point as int),
                        point_row@.len() == data.columns,
                        closest_ind < self.k,
                        (closest_ind, closest_dist) == closest_model(
                            *data,
                            self.centroids@,
                            point as int,
                            ind as int,
                        ),
                    decreases self.k - ind,
                {
                    let tmp_dist: T = match eucleadian_distance(
                        point_row.as_slice(),
                        self.centroids[ind].as_slice(),
                    ) {
                        Ok(d) => d,
                        Err(_) => {
                            proof {
                                assert(false);
                            }
                            T::zero()
                        },
                    };
                    if tmp_dist.lt(closest_dist) {
                        closest_ind = ind;
                        closest_dist = tmp_dist;
                    }
                    ind += 1;
                }
                if has_prev {
                    if prev_assign[point] != closest_ind {
                        changed = true;
                    }
                } else {
                    changed = true;
                }
                assign.push(closest_ind);
                point += 1;
            }

            stable = !changed;

            // Centroid update step.
            let mut cent: usize = 0;
            let mut new_centroids: Vec<Vec<T>> = Vec::new();
            while cent < self.k
                invariant
                    cent <= self.k,
                    self.wf_k(),
                    data.wf(),
                    len_data == data.rows,
                    width == data.columns,
                    assign@.len() == len_data,
                    new_centroids@.len() == cent,
                    forall|c: int|
                        0 <= c < cent ==> (#[trigger] new_centroids@[c])@.len() == width,
                    forall|c: int, w: int|
                        0 <= c < cent && 0 <= w < width ==> (#[trigger] new_centroids@[c]@[w])
                            == assign_coord_sum_model(
                            *data,
                            assign@,
                            c,
                            w,
                            data.rows as int,
                        ).model_div(assign_total_model::<T>(assign@, c, data.rows as int)),
                decreases self.k - cent,
            {
                let mut total: T = T::zero();
                let mut new_coords: Vec<T> = zero_vector(width);
                let mut i: usize = 0;
                while i < len_data
                    invariant
                        i <= len_data,
                        data.wf(),
                        len_data == data.rows,
                        width == data.columns,
                        assign@.len() == len_data,
                        new_coords@.len() == width,
                        total == assign_total_model::<T>(assign@, cent as int, i as int),
                        forall|w: int|
                            0 <= w < width ==> (#[trigger] new_coords@[w])
                                == assign_coord_sum_model(
                                *data,
                                assign@,
                                cent as int,
                                w,
                                i as int,
                            ),
                    decreases len_data - i,
                {
                    if assign[i] == cent {
                        total = total.plus(T::one());
                        let row = data.get_row(i);
                        proof {
                            data.lemma_row_model_ent(i as int);
                        }
                        let m = if row.len() <= width {
                            row.len()
                        } else {
                            width
                        };
                        let mut w: usize = 0;
                        while w < m
                            invariant
                                w <= m,
                                m == width,
                                i < len_data,
                                data.wf(),
                                len_data == data.rows,
                                width == data.columns,
                                assign@.len() == len_data,
                                assign@[i as int] == cent,
                                row@ == data.row_model(i as int),
                                row@.len() == width,
                                forall|l: int|
                                    0 <= l < row@.len() ==> #[trigger] row@[l] == data.ent(
                                        i as int,
                                        l,
                                    ),
                                new_coords@.len() == width,
                                forall|l: int|
                                    0 <= l < w ==> (#[trigger] new_coords@[l])
                                        == assign_coord_sum_model(
                                        *data,
                                        assign@,
                                        cent as int,
                                        l,
                                        i + 1,
                                    ),
                                forall|l: int|
                                    w <= l < width ==> (#[trigger] new_coords@[l])
                                        == assign_coord_sum_model(
                                        *data,
                                        assign@,
                                        cent as int,
                                        l,
                                        i as int,
                                    ),
                            decreases m - w,
                        {
                            let v = new_coords[w].plus(row[w]);
                            new_coords[w] = v;
                            w += 1;
                        }
                    }
                    i += 1;
                }
                let mut scaled: Vec<T> = Vec::new();
                let mut w: usize = 0;
                while w < new_coords.len()
                    invariant
                        w <= new_coords@.len(),
                        scaled@.len() == w,
                        new_coords@.len() == width,
                        total == assign_total_model::<T>(assign@, cent as int, len_data as int),
                        len_data == data.rows,
                        forall|l: int|
                            0 <= l < width ==> (#[trigger] new_coords@[l])
                                == assign_coord_sum_model(
                                *data,
                                assign@,
                                cent as int,
                                l,
                                len_data as int,
                            ),
                        forall|l: int|
                            0 <= l < w ==> (#[trigger] scaled@[l]) == assign_coord_sum_model(
                                *data,
                                assign@,
                                cent as int,
                                l,
                                len_data as int,
                            ).model_div(
                                assign_total_model::<T>(assign@, cent as int, len_data as int),
                            ),
                    decreases new_coords@.len() - w,
                {
                    scaled.push(new_coords[w].divided_by(total));
                    w += 1;
                }
                new_centroids.push(scaled);
                cent += 1;
            }
            self.centroids = new_centroids;

            let ghost prevprev = prev_assign@;
            let ghost afin = assign@;
            prev_assign = assign;
            assign = Vec::new();
            has_prev = true;
            proof {
                if stable {
                    assert(prevprev =~= prev_assign@);
                    assert forall|c: int| 0 <= c < self.k implies (#[trigger] cents_before[c])@
                        == self.centroids@[c]@ by {
                        assert forall|w: int|
                            0 <= w < width implies cents_before[c]@[w]
                            == self.centroids@[c]@[w] by {
                            assert(cents_before[c]@[w] == assign_coord_sum_model(
                                *data,
                                prevprev,
                                c,
                                w,
                                data.rows as int,
                            ).model_div(assign_total_model::<T>(prevprev, c, data.rows as int)));
                        }
                        assert(cents_before[c]@ =~= self.centroids@[c]@);
                    }
                    assert forall|j: int| 0 <= j < len_data implies #[trigger] prev_assign@[j]
                        == closest_model(*data, self.centroids@, j, self.k as int).0 by {
                        lemma_closest_congruence(
                            *data,
                            cents_before,
                            self.centroids@,
                            j,
                            self.k as int,
                        );
                        assert(afin[j] == closest_model(*data, cents_before, j, self.k as int).0);
                    }
                }
            }
            iterations += 1;
        }

        // Build the indicator from the final assignment.
        let mut z: Vec<Vec<u8>> = Vec::new();
        let mut cent: usize = 0;
        while cent < self.k
            invariant
                cent <= self.k,
                prev_assign@.len() == len_data,
                forall|i: int| 0 <= i < len_data ==> #[trigger] prev_assign@[i] < self.k,
                z@.len() == cent,
                forall|c: int| 0 <= c < cent ==> (#[trigger] z@[c])@.len() == len_data,
                forall|c: int, i: int|
                    0 <= c < cent && 0 <= i < len_data ==> (#[trigger] z@[c]@[i]) == (if
                    prev_assign@[i] == c {
                        1u8
                    } else {
                        0u8
                    }),
            decreases self.k - cent,
        {
            let mut row: Vec<u8> = Vec::new();
            let mut i: usize = 0;
            while i < len_data
                invariant
                    i <= len_data,
                    prev_assign@.len() == len_data,
                    row@.len() == i,
                    forall|q: int|
                        0 <= q < i ==> (#[trigger] row@[q]) == (if prev_assign@[q] == cent {
                            1u8
                        } else {
                            0u8
                        }),
                decreases len_data - i,
            {
                if prev_assign[i] == cent {
                    row.push(1u8);
                } else {
                    row.push(0u8);
                }
                i += 1;
            }
            z.push(row);
            cent += 1;
        }

        self.converged = Ghost(stable);
        proof {
            assert forall|i: int| 0 <= i < data.rows implies one_hot_column(
                z@,
                self.k as int,
                i,
            ) by {
                let c = prev_assign@[i] as int;
                assert(z@[c]@[i] == 1);
            }
            if stable {
                assert forall|j: int| 0 <= j < data.rows implies z@[closest_model(
                    *data,
                    self.centroids@,
                    j,
                    self.k as int,
                ).0 as int]@[j] == 1 by {
                    assert(prev_assign@[j] == closest_model(
                        *data,
                        self.centroids@,
                        j,
                        self.k as int,
                    ).0);
                }
            }
            assert forall|c: int, w: int|
                0 <= c < self.k && 0 <= w < data.columns implies (#[trigger] self.centroids@[c]@[w])
                == hard_coord_sum_model(*data, z@[c]@, w, data.rows as int).model_div(
                hard_total_model::<T>(z@[c]@, data.rows as int),
            ) by {
                lemma_hard_folds_agree(*data, z@[c]@, prev_assign@, c, w, data.rows as int);
            }
        }
        self.final_z = z;
    }
}

} // verus!
