use vstd::prelude::*;
use crate::fixed::{Fixed, fx_add_sp, fx_mul_sp, fx_sub_sp, fx_sqrt_raw, fx_tdiv, is_isqrt, sp_abs, FX_SCALE};
use crate::rng::rand_below;
use crate::tools::fx_zeros;

verus! {

/// The squared Euclidean distance of two coordinate rows, folded left
/// over the first `upto` coordinates.
pub open spec fn dist2_sp(a: Seq<Fixed>, b: Seq<Fixed>, upto: int) -> int
    decreases upto,
{
    if upto <= 0 {
        0
    } else {
        let d = fx_sub_sp(a[upto - 1].v as int, b[upto - 1].v as int);
        fx_add_sp(dist2_sp(a, b, upto - 1), fx_mul_sp(d, d))
    }
}

/// The squared Euclidean distance of two equal-length coordinate rows.
pub fn squared_distance(a: &Vec<Fixed>, b: &Vec<Fixed>) -> (r: Fixed)
    requires
        a@.len() == b@.len(),
    ensures
        r.v as int == dist2_sp(a@, b@, a@.len() as int),
{
    let n = a.len();
    let mut acc = Fixed { v: 0 };
    let mut i: usize = 0;
    while i < n
        invariant
            n == a@.len(),
            n == b@.len(),
            i <= n,
            acc.v as int == dist2_sp(a@, b@, i as int),
        decreases n - i,
    {
        let d = a[i].sub(b[i]);
        acc = acc.add(d.mul(d));
        i += 1;
    }
    acc
}

/// The Euclidean distance of two equal-length coordinate rows (the
/// fixed-point square root of the squared distance).
pub fn euclidean_distance(a: &Vec<Fixed>, b: &Vec<Fixed>) -> (r: Fixed)
    requires
        a@.len() == b@.len(),
    ensures
        r.v >= 0,
        dist2_sp(a@, b@, a@.len() as int) >= 0 ==> is_isqrt(
            dist2_sp(a@, b@, a@.len() as int) * FX_SCALE as int,
            r.v as int,
        ),
{
    let d2 = squared_distance(a, b);
    if d2.v >= 0 {
        fx_sqrt_raw(d2.v)
    } else {
        Fixed { v: 0 }
    }
}

/// Centroids, per-sample labels, and the reserved per-cluster standard
/// deviations (left at zero).
pub struct KMeans {
    pub cluster_centroid: Vec<Vec<Fixed>>,
    pub labels: Vec<usize>,
    pub clusters_std: Vec<Vec<Fixed>>,
}

/// An empty clustering model.
pub fn init() -> (r: KMeans)
    ensures
        r.cluster_centroid@.len() == 0,
        r.labels@.len() == 0,
        r.clusters_std@.len() == 0,
{
    KMeans { cluster_centroid: Vec::new(), labels: Vec::new(), clusters_std: Vec::new() }
}

/// `nb_cluster` centroids with each coordinate drawn uniformly from
/// [0, 1).
fn initialize_cluster(nb_cluster: usize, n_features: usize) -> (r: Vec<Vec<Fixed>>)
    ensures
        r@.len() == nb_cluster,
        forall|k: int| 0 <= k < nb_cluster ==> (#[trigger] r@[k])@.len() == n_features,
{
    let mut cluster: Vec<Vec<Fixed>> = Vec::new();
    let mut k: usize = 0;
    while k < nb_cluster
        invariant
            k <= nb_cluster,
            cluster@.len() == k,
            forall|x: int| 0 <= x < k ==> (#[trigger] cluster@[x])@.len() == n_features,
        decreases nb_cluster - k,
    {
        let mut point: Vec<Fixed> = Vec::new();
        let mut f: usize = 0;
        while f < n_features
            invariant
                f <= n_features,
                point@.len() == f,
            decreases n_features - f,
        {
            point.push(Fixed { v: rand_below(FX_SCALE as u64) as i64 });
            f += 1;
        }
        cluster.push(point);
        k += 1;
    }
    cluster
}

/// Each point's label: the index of the first centroid of minimal
/// squared distance.
pub fn assign_clusters(data: &Vec<Vec<Fixed>>, centroids: &Vec<Vec<Fixed>>) -> (r: Vec<usize>)
    requires
        centroids@.len() > 0,
        forall|k: int|
            0 <= k < centroids@.len() ==> (#[trigger] centroids@[k])@.len() == centroids@[0]@.len(),
        forall|i: int|
            0 <= i < data@.len() ==> (#[trigger] data@[i])@.len() == centroids@[0]@.len(),
    ensures
        r@.len() == data@.len(),
        forall|i: int| 0 <= i < r@.len() ==> (#[trigger] r@[i]) < centroids@.len(),
        forall|i: int, k: int|
            #![trigger r@[i], centroids@[k]]
            0 <= i < r@.len() && 0 <= k < centroids@.len() ==> dist2_sp(
                data@[i]@,
                centroids@[r@[i] as int]@,
                data@[i]@.len() as int,
            ) <= dist2_sp(data@[i]@, centroids@[k]@, data@[i]@.len() as int),
{
    let n = data.len();
    let m = centroids.len();
    let mut labels: Vec<usize> = Vec::new();
    let mut i: usize = 0;
    while i < n
        invariant
            n == data@.len(),
            m == centroids@.len(),
            m > 0,
            forall|k: int|
                0 <= k < centroids@.len() ==> (#[trigger] centroids@[k])@.len()
                    == centroids@[0]@.len(),
            forall|x: int|
                0 <= x < data@.len() ==> (#[trigger] data@[x])@.len() == centroids@[0]@.len(),
            i <= n,
            labels@.len() == i,
            forall|x: int| 0 <= x < i ==> (#[trigger] labels@[x]) < centroids@.len(),
            forall|x: int, k: int|
                #![trigger labels@[x], centroids@[k]]
                0 <= x < i && 0 <= k < centroids@.len() ==> dist2_sp(
                    data@[x]@,
                    centroids@[labels@[x] as int]@,
                    data@[x]@.len() as int,
                ) <= dist2_sp(data@[x]@, centroids@[k]@, data@[x]@.len() as int),
        decreases n - i,
    {
        let mut best_k: usize = 0;
        let mut best_d = squared_distance(&data[i], &centroids[0]);
        let mut k: usize = 1;
        while k < m
            invariant
                i < n,
                n == data@.len(),
                m == centroids@.len(),
                forall|x: int|
                    0 <= x < centroids@.len() ==> (#[trigger] centroids@[x])@.len()
                        == centroids@[0]@.len(),
                forall|x: int|
                    0 <= x < data@.len() ==> (#[trigger] data@[x])@.len() == centroids@[0]@.len(),
                1 <= k <= m,
                best_k < k,
                best_d.v as int == dist2_sp(
                    data@[i as int]@,
                    centroids@[best_k as int]@,
                    data@[i as int]@.len() as int,
                ),
                forall|x: int|
                    0 <= x < k ==> best_d.v as int <= dist2_sp(
                        data@[i as int]@,
                        (#[trigger] centroids@[x])@,
                        data@[i as int]@.len() as int,
                    ),
            decreases m - k,
        {
            let d = squared_distance(&data[i], &centroids[k]);
            if d.v < best_d.v {
                best_d = d;
                best_k = k;
            }
            k += 1;
        }
        labels.push(best_k);
        i += 1;
    }
    labels
}

/// The number of points among the first `upto` carrying label `k`.
pub open spec fn ccount(labels: Seq<usize>, k: int, upto: int) -> int
    decreases upto,
{
    if upto <= 0 {
        0
    } else {
        ccount(labels, k, upto - 1) + (if labels[upto - 1] == k {
            1int
        } else {
            0int
        })
    }
}

/// The coordinate-`f` sum (saturating fold) over the first `upto`
/// points carrying label `k`.
pub open spec fn csum(data: Seq<Vec<Fixed>>, labels: Seq<usize>, k: int, f: int, upto: int) -> int
    decreases upto,
{
    if upto <= 0 {
        0
    } else {
        let rest = csum(data, labels, k, f, upto - 1);
        if labels[upto - 1] == k {
            fx_add_sp(rest, data[upto - 1]@[f].v as int)
        } else {
            rest
        }
    }
}

/// New centroids: the coordinate-wise mean of each cluster's points;
/// an empty cluster keeps its old centroid.
pub fn update_centroids(
    data: &Vec<Vec<Fixed>>,
    labels: &Vec<usize>,
    old_centroids: &Vec<Vec<Fixed>>,
    n_features: usize,
) -> (r: Vec<Vec<Fixed>>)
    requires
        labels@.len() == data@.len(),
        forall|i: int| 0 <= i < data@.len() ==> (#[trigger] data@[i])@.len() == n_features,
        forall|i: int| 0 <= i < labels@.len() ==> (#[trigger] labels@[i]) < old_centroids@.len(),
        forall|k: int|
            0 <= k < old_centroids@.len() ==> (#[trigger] old_centroids@[k])@.len() == n_features,
        data@.len() < 0x1_0000_0000,
    ensures
        r@.len() == old_centroids@.len(),
        forall|k: int| 0 <= k < r@.len() ==> (#[trigger] r@[k])@.len() == n_features,
        forall|k: int, f: int|
            0 <= k < r@.len() && 0 <= f < n_features ==> (#[trigger] r@[k]@[f]).v as int == (
            if ccount(labels@, k, labels@.len() as int) > 0 {
                fx_tdiv(
                    csum(data@, labels@, k, f, data@.len() as int),
                    ccount(labels@, k, labels@.len() as int),
                )
            } else {
                old_centroids@[k]@[f].v as int
            }),
{
    let nb_cluster = old_centroids.len();
    let n = data.len();
    let mut out: Vec<Vec<Fixed>> = Vec::new();
    let mut k: usize = 0;
    while k < nb_cluster
        invariant
            nb_cluster == old_centroids@.len(),
            n == data@.len(),
            n == labels@.len(),
            n < 0x1_0000_0000,
            forall|i: int| 0 <= i < data@.len() ==> (#[trigger] data@[i])@.len() == n_features,
            forall|i: int| 0 <= i < labels@.len() ==> (#[trigger] labels@[i]) < nb_cluster,
            forall|x: int|
                0 <= x < nb_cluster ==> (#[trigger] old_centroids@[x])@.len() == n_features,
            k <= nb_cluster,
            out@.len() == k,
            forall|x: int| 0 <= x < k ==> (#[trigger] out@[x])@.len() == n_features,
            forall|x: int, f: int|
                0 <= x < k && 0 <= f < n_features ==> (#[trigger] out@[x]@[f]).v as int == (
                if ccount(labels@, x, n as int) > 0 {
                    fx_tdiv(csum(data@, labels@, x, f, n as int), ccount(labels@, x, n as int))
                } else {
                    old_centroids@[x]@[f].v as int
                }),
        decreases nb_cluster - k,
    {
        let mut count: u64 = 0;
        let mut i: usize = 0;
        while i < n
            invariant
                n == labels@.len(),
                n < 0x1_0000_0000,
                i <= n,
                count as int == ccount(labels@, k as int, i as int),
                count <= i as u64,
            decreases n - i,
        {
            if labels[i] == k {
                count = count + 1;
            }
            i += 1;
        }
        if count > 0 {
            let mut row: Vec<Fixed> = Vec::new();
            let mut f: usize = 0;
            while f < n_features
                invariant
                    n == data@.len(),
                    n == labels@.len(),
                    forall|x: int|
                        0 <= x < data@.len() ==> (#[trigger] data@[x])@.len() == n_features,
                    f <= n_features,
                    count > 0,
                    count as int == ccount(labels@, k as int, n as int),
                    row@.len() == f,
                    forall|x: int|
                        0 <= x < f ==> (#[trigger] row@[x]).v as int == fx_tdiv(
                            csum(data@, labels@, k as int, x, n as int),
                            ccount(labels@, k as int, n as int),
                        ),
                decreases n_features - f,
            {
                let mut acc = Fixed { v: 0 };
                let mut i2: usize = 0;
                while i2 < n
                    invariant
                        n == data@.len(),
                        n == labels@.len(),
                        f < n_features,
                        forall|x: int|
                            0 <= x < data@.len() ==> (#[trigger] data@[x])@.len() == n_features,
                        i2 <= n,
                        acc.v as int == csum(data@, labels@, k as int, f as int, i2 as int),
                    decreases n - i2,
                {
                    if labels[i2] == k {
                        acc = acc.add(data[i2][f]);
                    }
                    i2 += 1;
                }
                row.push(acc.div_count(count));
                f += 1;
            }
            out.push(row);
        } else {
            out.push(crate::nn_struct::copy_fixed_row(&old_centroids[k]));
        }
        k += 1;
    }
    out
}

/// Whether every centroid moved by less than `tol` in every coordinate.
pub fn has_converged(old_c: &Vec<Vec<Fixed>>, new_c: &Vec<Vec<Fixed>>, tol: Fixed) -> (r: bool)
    requires
        old_c@.len() == new_c@.len(),
        forall|k: int| 0 <= k < old_c@.len() ==> (#[trigger] old_c@[k])@.len() == new_c@[k]@.len(),
    ensures
        r == forall|k: int, f: int|
            0 <= k < old_c@.len() && 0 <= f < old_c@[k]@.len() ==> sp_abs(
                fx_sub_sp((#[trigger] old_c@[k]@[f]).v as int, new_c@[k]@[f].v as int),
            ) < tol.v,
{
    let n = old_c.len();
    let mut k: usize = 0;
    while k < n
        invariant
            n == old_c@.len(),
            n == new_c@.len(),
            forall|x: int|
                0 <= x < old_c@.len() ==> (#[trigger] old_c@[x])@.len() == new_c@[x]@.len(),
            k <= n,
            forall|x: int, f: int|
                0 <= x < k && 0 <= f < old_c@[x]@.len() ==> sp_abs(
                    fx_sub_sp((#[trigger] old_c@[x]@[f]).v as int, new_c@[x]@[f].v as int),
                ) < tol.v,
        decreases n - k,
    {
        let m = old_c[k].len();
        let mut f: usize = 0;
        while f < m
            invariant
                k < n,
                n == old_c@.len(),
                n == new_c@.len(),
                m == old_c@[k as int]@.len(),
                m == new_c@[k as int]@.len(),
                f <= m,
                forall|x: int|
                    0 <= x < f ==> sp_abs(
                        fx_sub_sp((#[trigger] old_c@[k as int]@[x]).v as int, new_c@[k as int]@[x].v as int),
                    ) < tol.v,
            decreases m - f,
        {
            let diff = old_c[k][f].sub(new_c[k][f]).abs();
            if diff.v >= tol.v {
                return false;
            }
            f += 1;
        }
        k += 1;
    }
    true
}

/// The model stands one committed round after the centroid row
/// `prev`: its labels assign each point to a first-nearest centroid of
/// `prev`, and its centroids are the coordinate-wise means of those
/// labels (an empty cluster keeping its `prev` centroid).
pub open spec fn committed_round(
    data: Seq<Vec<Fixed>>,
    n_features: int,
    prev: Seq<Vec<Fixed>>,
    m: KMeans,
) -> bool {
    &&& prev.len() == m.cluster_centroid@.len()
    &&& forall|k: int| 0 <= k < prev.len() ==> (#[trigger] prev[k])@.len() == n_features
    &&& m.labels@.len() == data.len()
    &&& forall|i: int| 0 <= i < m.labels@.len() ==> (#[trigger] m.labels@[i]) < prev.len()
    &&& forall|i: int, k: int|
        #![trigger m.labels@[i], prev[k]]
        0 <= i < m.labels@.len() && 0 <= k < prev.len() ==> dist2_sp(
            data[i]@,
            prev[m.labels@[i] as int]@,
            data[i]@.len() as int,
        ) <= dist2_sp(data[i]@, prev[k]@, data[i]@.len() as int)
    &&& forall|k: int, f: int|
        0 <= k < m.cluster_centroid@.len() && 0 <= f < n_features ==> (
        #[trigger] m.cluster_centroid@[k]@[f]).v as int == (
        if ccount(m.labels@, k, m.labels@.len() as int) > 0 {
            fx_tdiv(
                csum(data, m.labels@, k, f, data.len() as int),
                ccount(m.labels@, k, m.labels@.len() as int),
            )
        } else {
            prev[k]@[f].v as int
        })
}

/// Runs at most `max_iter` rounds of assignment and centroid updates,
/// committing labels and centroids each round and stopping early once
/// every centroid moves by less than 1e-4 per coordinate.
pub fn train(
    model: &mut KMeans,
    nb_cluster: usize,
    max_iter: usize,
    data: &Vec<Vec<Fixed>>,
    n_features: usize,
)
    requires
        nb_cluster > 0,
        forall|i: int| 0 <= i < data@.len() ==> (#[trigger] data@[i])@.len() == n_features,
        data@.len() < 0x1_0000_0000,
    ensures
        final(model).cluster_centroid@.len() == nb_cluster,
        forall|k: int|
            0 <= k < nb_cluster ==> (#[trigger] final(model).cluster_centroid@[k])@.len()
                == n_features,
        final(model).labels@.len() == data@.len(),
        forall|i: int|
            0 <= i < final(model).labels@.len() ==> (#[trigger] final(model).labels@[i])
                < nb_cluster,
        final(model).clusters_std@.len() == nb_cluster,
        forall|k: int|
            0 <= k < nb_cluster ==> (#[trigger] final(model).clusters_std@[k])@.len()
                == n_features,
        forall|k: int, f: int|
            0 <= k < nb_cluster && 0 <= f < n_features ==> (
            #[trigger] final(model).clusters_std@[k]@[f]).v == 0,
        // With at least one round, the stored labels and centroids are
        // exactly what one assignment-then-update round computes from
        // some predecessor centroid row.
        max_iter > 0 ==> exists|prev: Seq<Vec<Fixed>>|
            #[trigger] committed_round(data@, n_features as int, prev, *final(model)),
{
    model.cluster_centroid = initialize_cluster(nb_cluster, n_features);
    let mut labels: Vec<usize> = Vec::new();
    let mut i: usize = 0;
    let n = data.len();
    while i < n
        invariant
            i <= n,
            labels@.len() == i,
            forall|x: int| 0 <= x < i ==> (#[trigger] labels@[x]) < nb_cluster,
            nb_cluster > 0,
        decreases n - i,
    {
        labels.push(0);
        i += 1;
    }
    model.labels = labels;
    let mut stds: Vec<Vec<Fixed>> = Vec::new();
    let mut k: usize = 0;
    while k < nb_cluster
        invariant
            k <= nb_cluster,
            stds@.len() == k,
            forall|x: int| 0 <= x < k ==> (#[trigger] stds@[x])@.len() == n_features,
            forall|x: int, f: int|
                0 <= x < k && 0 <= f < n_features ==> (#[trigger] stds@[x]@[f]).v == 0,
        decreases nb_cluster - k,
    {
        stds.push(fx_zeros(n_features));
        k += 1;
    }
    model.clusters_std = stds;
    let tol = Fixed { v: 100 };
    if max_iter == 0 {
        return ;
    }
    let ghost mut last_prev: Seq<Vec<Fixed>> = model.cluster_centroid@;
    let new_labels = assign_clusters(data, &model.cluster_centroid);
    let new_centroids = update_centroids(data, &new_labels, &model.cluster_centroid, n_features);
    let mut settled = has_converged(&model.cluster_centroid, &new_centroids, tol);
    model.labels = new_labels;
    model.cluster_centroid = new_centroids;
    proof {
        assert(committed_round(data@, n_features as int, last_prev, *model));
    }
    let mut it: usize = 1;
    while it < max_iter
        invariant
            nb_cluster > 0,
            n == data@.len(),
            n < 0x1_0000_0000,
            forall|x: int| 0 <= x < data@.len() ==> (#[trigger] data@[x])@.len() == n_features,
            model.cluster_centroid@.len() == nb_cluster,
            forall|x: int|
                0 <= x < nb_cluster ==> (#[trigger] model.cluster_centroid@[x])@.len()
                    == n_features,
            model.labels@.len() == n,
            forall|x: int| 0 <= x < model.labels@.len() ==> (#[trigger] model.labels@[x]) < nb_cluster,
            model.clusters_std@.len() == nb_cluster,
            forall|x: int|
                0 <= x < nb_cluster ==> (#[trigger] model.clusters_std@[x])@.len() == n_features,
            forall|x: int, f: int|
                0 <= x < nb_cluster && 0 <= f < n_features ==> (
                #[trigger] model.clusters_std@[x]@[f]).v == 0,
            committed_round(data@, n_features as int, last_prev, *model),
        decreases max_iter - it,
    {
        if settled {
            break ;
        }
        proof {
            last_prev = model.cluster_centroid@;
        }
        let new_labels = assign_clusters(data, &model.cluster_centroid);
        let new_centroids = update_centroids(data, &new_labels, &model.cluster_centroid, n_features);
        settled = has_converged(&model.cluster_centroid, &new_centroids, tol);
        model.labels = new_labels;
        model.cluster_centroid = new_centroids;
        proof {
            assert(committed_round(data@, n_features as int, last_prev, *model));
        }
        it += 1;
    }
}

} // verus!
