use rustml::fixed::{fx_sqrt_count, Fixed};
use rustml::rng::{pick_weighted, rand_below};
use rustml::kmeans::{assign_clusters, euclidean_distance, init, squared_distance, train};
use rustml::persist::{load_dense_policy, load_policy_doc, policy_round_trip, save_policy_doc};
use rustml::table::Table;
use rustml::tools::argmax;

fn fx(units: i64) -> Fixed {
    Fixed { v: units }
}

#[test]
fn random_draws_stay_in_range() {
    for _ in 0..200 {
        assert!(rand_below(3) < 3);
        assert!(rand_below(1) == 0);
    }
}

#[test]
fn weighted_draws_never_pick_zero_weight() {
    for _ in 0..100 {
        let idx = pick_weighted(&vec![0u64, 5, 0]);
        assert_eq!(idx, 1);
    }
    for _ in 0..100 {
        let idx = pick_weighted(&vec![3u64, 0, 3]);
        assert!(idx == 0 || idx == 2);
    }
}

#[test]
fn test_argmax() {
    let input_data = vec![Some(fx(1_000_000)), Some(fx(4_000_000)), Some(fx(3_000_000)), Some(
        fx(2_000_000),
    )];
    let index_max = argmax(&input_data);
    assert_eq!(index_max, 1);
}

#[test]
fn argmax_skips_absent_entries() {
    // An absent entry (the place a NaN held) is never the result.
    let input_data = vec![Some(fx(1_000_000)), None, Some(fx(5_000_000)), None];
    assert_eq!(argmax(&input_data), 2);
    let only_tail = vec![None, None, Some(fx(-7_000_000))];
    assert_eq!(argmax(&only_tail), 2);
    let all_absent: Vec<Option<Fixed>> = vec![None, None];
    assert_eq!(argmax(&all_absent), 0);
}

#[test]
fn argmax_first_maximum_wins() {
    let input_data = vec![Some(fx(9)), Some(fx(9)), Some(fx(3))];
    assert_eq!(argmax(&input_data), 0);
}

#[test]
fn fixed_arithmetic_is_exact() {
    assert_eq!(fx(500_000).add(fx(250_000)).v, 750_000);
    assert_eq!(fx(500_000).mul(fx(500_000)).v, 250_000);
    assert_eq!(fx(1_000_000).div(fx(3_000_000)).v, 333_333);
    assert_eq!(fx(-1_000_000).mul(fx(500_000)).v, -500_000);
    assert_eq!(fx(7).sub(fx(9)).v, -2);
    assert_eq!(fx(-5).abs().v, 5);
    assert_eq!(fx(i64::MAX).add(fx(1)).v, i64::MAX);
}

#[test]
fn fixed_sqrt_of_counts() {
    assert_eq!(fx_sqrt_count(0).v, 0);
    assert_eq!(fx_sqrt_count(1).v, 1_000_000);
    assert_eq!(fx_sqrt_count(4).v, 2_000_000);
    // sqrt(2) floor in millionths
    assert_eq!(fx_sqrt_count(2).v, 1_414_213);
}

#[test]
fn distances_are_exact() {
    let a = vec![fx(0), fx(0)];
    let b = vec![fx(3_000_000), fx(4_000_000)];
    assert_eq!(squared_distance(&a, &b).v, 25_000_000);
    assert_eq!(euclidean_distance(&a, &b).v, 5_000_000);
}

#[test]
fn kmeans_labels_match_nearest_centroid() {
    // Two well-separated planar clusters: after training, every point
    // is labelled with the centroid it is nearest to.
    let data = vec![
        vec![fx(0), fx(0)],
        vec![fx(100_000), fx(0)],
        vec![fx(0), fx(100_000)],
        vec![fx(9_000_000), fx(9_000_000)],
        vec![fx(9_100_000), fx(9_000_000)],
        vec![fx(9_000_000), fx(9_100_000)],
    ];
    let mut model = init();
    train(&mut model, 2, 100, &data, 2);
    assert_eq!(model.labels.len(), 6);
    assert_eq!(model.cluster_centroid.len(), 2);
    let relabel = assign_clusters(&data, &model.cluster_centroid);
    assert_eq!(model.labels, relabel);
    // the two halves of the data never share a label unless one
    // centroid captured everything
    assert_eq!(model.labels[0], model.labels[1]);
    assert_eq!(model.labels[1], model.labels[2]);
    assert_eq!(model.labels[3], model.labels[4]);
    assert_eq!(model.labels[4], model.labels[5]);
}

#[test]
fn policy_persistence_round_trip() {
    let mut policy: Table<u64> = Table::new();
    policy.insert(5, 2);
    policy.insert(0, 1);
    policy.insert(17, 0);
    let doc = save_policy_doc(&policy);
    assert_eq!(doc, "{\"0\":1,\"5\":2,\"17\":0}");
    let loaded = load_policy_doc(&doc).unwrap();
    assert_eq!(loaded.get(5), Some(2));
    assert_eq!(loaded.get(0), Some(1));
    assert_eq!(loaded.get(17), Some(0));
    assert_eq!(loaded.get(3), None);

    let round = policy_round_trip(&policy);
    assert_eq!(round.get(5), Some(2));
    assert_eq!(round.get(0), Some(1));
    assert_eq!(round.get(17), Some(0));
    assert_eq!(round.len(), 3);
}

#[test]
fn policy_persistence_refuses_garbage() {
    assert!(load_policy_doc("not json at all").is_none());
    assert!(load_policy_doc("[1,2,3]").is_none());
}

#[test]
fn dense_policy_loads_with_default_holes() {
    let dense = load_dense_policy("{\"0\":1,\"3\":2}").unwrap();
    assert_eq!(dense, vec![1, 0, 0, 2]);
}
