use kmeans::{
    convergence_feature, feature_dropped, init_plus_plus, init_simple, nearest_distances,
    select_weighted, Cluster, DistanceMetric, DistanceMetrics, Initializer, Kmeans, KmeansError, KmeansPoint, Rgb,
    DEFAULT_SEED, FEATURE_ONE,
};
use rand::rngs::StdRng;
use rand::SeedableRng;
use rand_distr::{Distribution, Normal};

const SEED: u64 = 523342;
const N_CLUSTERS: u8 = 5;

fn rgb(r: u8, g: u8, b: u8) -> Rgb {
    Rgb { r, g, b }
}

fn channel(x: f32) -> u8 {
    (x * 255.0) as u8
}

fn generate_dataset(count: usize, rng: &mut StdRng) -> Vec<Rgb> {
    let normal: Normal<f32> = Normal::new(0.5, 0.5).unwrap();
    let mut dataset: Vec<Rgb> = Vec::new();
    for _ in 0..count {
        dataset.push(rgb(
            channel(normal.sample(rng).abs() % 1.0),
            channel(normal.sample(rng).abs() % 1.0),
            channel(normal.sample(rng).abs() % 1.0),
        ))
    }
    dataset
}

fn engine(count: usize, init: Initializer) -> Kmeans<Rgb> {
    let mut rng = StdRng::seed_from_u64(SEED);
    let dataset = generate_dataset(count, &mut rng);
    Kmeans::init(dataset, N_CLUSTERS, init, DistanceMetric::Squared, DEFAULT_SEED).unwrap()
}

fn cluster(point: Rgb, index: u8) -> Cluster<Rgb> {
    Cluster { point, index, size: 0 }
}

#[test]
fn find_squared_distance() {
    let point1 = rgb(20, 30, 60);
    let point2 = rgb(75, 30, 80);

    assert_eq!(point1.get_distance(&point2, &DistanceMetric::Squared), 3425)
}

#[test]
fn find_manhattan_distance() {
    let point1 = rgb(2, 2, 2);
    let point2 = rgb(1, 1, 1);

    assert_eq!(point1.get_distance(&point2, &DistanceMetric::Manhattan), 3)
}

#[test]
fn find_nearest() {
    let points = vec![cluster(rgb(255, 255, 255), 0), cluster(rgb(10, 50, 15), 1)];
    let point = rgb(50, 60, 30);

    assert!(point.get_nearest_cluster_index(&points, &DistanceMetric::Squared) == 1)
}

#[test]
fn test_init_plus_plus() {
    let mut rng = StdRng::seed_from_u64(SEED);
    let dataset = generate_dataset(1024, &mut rng);
    let k = Kmeans::init(dataset, N_CLUSTERS, Initializer::PlusPlus, DistanceMetric::Squared, DEFAULT_SEED);
    assert!(k.is_ok());
}

#[test]
fn nearest_tie_goes_to_first_cluster() {
    let points = vec![cluster(rgb(0, 0, 0), 7), cluster(rgb(20, 0, 0), 3)];
    let point = rgb(10, 0, 0);
    assert_eq!(point.get_nearest_cluster_index(&points, &DistanceMetric::Squared), 7);
    assert_eq!(point.get_nearest_cluster_distance(&points, &DistanceMetric::Squared), 100);
    assert_eq!(point.get_nearest_cluster_distance(&points, &DistanceMetric::Manhattan), 10);
}

#[test]
fn nearest_with_no_clusters() {
    let point = rgb(1, 2, 3);
    assert_eq!(point.get_nearest_cluster_index(&vec![], &DistanceMetric::Squared), 0);
    assert_eq!(point.get_nearest_cluster_distance(&vec![], &DistanceMetric::Squared), u64::MAX);
}

#[test]
fn nearest_distances_in_dataset_order() {
    let clusters = vec![cluster(rgb(0, 0, 0), 0), cluster(rgb(100, 100, 100), 1)];
    let dataset = vec![rgb(1, 0, 0), rgb(90, 100, 100), rgb(0, 0, 3)];
    assert_eq!(nearest_distances(&dataset, &clusters, &DistanceMetric::Squared), vec![1, 100, 9]);
}

#[test]
fn largest_distances() {
    let black = rgb(0, 0, 0);
    let white = rgb(255, 255, 255);
    assert_eq!(black.get_squared_distance(&white), 195075);
    assert_eq!(white.get_manhattan_distance(&black), 765);
}

#[test]
fn mean_rounds_to_nearest() {
    assert_eq!(Rgb::from_mean(&vec![rgb(0, 0, 0), rgb(1, 1, 1)]), rgb(1, 1, 1));
    assert_eq!(
        Rgb::from_mean(&vec![rgb(10, 20, 30), rgb(20, 40, 60), rgb(30, 60, 91)]),
        rgb(20, 40, 60)
    );
    assert_eq!(Rgb::from_mean(&vec![rgb(255, 0, 7)]), rgb(255, 0, 7));
}

#[test]
fn rgb_channels() {
    assert_eq!(rgb(1, 2, 3).get_rgb(), [1, 2, 3]);
}

#[test]
fn select_weighted_walks_running_sums() {
    let weights = vec![0, 3, 0, 5];
    assert_eq!(select_weighted(&weights, 0), 1);
    assert_eq!(select_weighted(&weights, 2), 1);
    assert_eq!(select_weighted(&weights, 3), 3);
    assert_eq!(select_weighted(&weights, 7), 3);
}

#[test]
fn select_weighted_falls_back_to_last() {
    assert_eq!(select_weighted(&vec![0, 0, 0], 0), 2);
    assert_eq!(select_weighted(&vec![4, 4], 100), 1);
}

#[test]
fn feature_sums_weight_ratios() {
    let clusters = vec![
        Cluster { point: rgb(0, 0, 0), index: 0, size: 2 },
        Cluster { point: rgb(9, 9, 9), index: 1, size: 6 },
    ];
    assert_eq!(convergence_feature(&clusters, &vec![4, 3]), FEATURE_ONE / 2 + 2 * FEATURE_ONE);
    assert_eq!(convergence_feature(&clusters, &vec![0, 6]), 2 * FEATURE_ONE + FEATURE_ONE);
    assert_eq!(convergence_feature(&clusters, &vec![3, 4]), (2 * FEATURE_ONE) / 3 + (6 * FEATURE_ONE) / 4);
}

#[test]
fn feature_drop_threshold() {
    assert!(feature_dropped(1, 11));
    assert!(!feature_dropped(1, 10));
    assert!(!feature_dropped(5, 5));
}

#[test]
fn init_rejects_small_dataset() {
    let r = Kmeans::init(vec![rgb(1, 1, 1)], 2, Initializer::PlusPlus, DistanceMetric::Squared, 1);
    assert_eq!(r.err(), Some(KmeansError::InputTooSmall));
    let r = Kmeans::init(Vec::<Rgb>::new(), 1, Initializer::Simple, DistanceMetric::Squared, 1);
    assert_eq!(r.err(), Some(KmeansError::InputTooSmall));
}

#[test]
fn init_plus_plus_coverage() {
    let k = engine(300, Initializer::PlusPlus);
    assert_eq!(k.clusters.len(), N_CLUSTERS as usize);
    assert_eq!(k.labels, vec![0u8; 300]);
    for (i, c) in k.clusters.iter().enumerate() {
        assert_eq!(c.index as usize, i);
        assert_eq!(c.size, 0);
        assert!(k.dataset.contains(&c.point));
    }
}

#[test]
fn init_simple_coverage() {
    let k = engine(300, Initializer::Simple);
    assert_eq!(k.clusters.len(), N_CLUSTERS as usize);
    for (i, c) in k.clusters.iter().enumerate() {
        assert_eq!(c.index as usize, i);
        assert!(k.dataset.contains(&c.point));
    }
}

#[test]
fn plus_plus_picks_a_new_colour() {
    let dataset = vec![rgb(0, 0, 0), rgb(200, 10, 10), rgb(0, 0, 0), rgb(0, 0, 0)];
    for seed in 0..20 {
        let k = Kmeans::init(dataset.clone(), 2, Initializer::PlusPlus, DistanceMetric::Squared, seed)
            .unwrap();
        assert_ne!(k.clusters[0].point, k.clusters[1].point);
    }
}

#[test]
fn plus_plus_falls_back_to_last_point() {
    let dataset = vec![rgb(4, 4, 4), rgb(4, 4, 4), rgb(4, 4, 4)];
    let mut k = Kmeans::init(dataset.clone(), 1, Initializer::Simple, DistanceMetric::Squared, 9).unwrap();
    k.clusters.clear();
    init_plus_plus(&mut k, 3, 9);
    assert_eq!(k.clusters.len(), 3);
    assert_eq!(k.clusters[2].point, rgb(4, 4, 4));
    init_simple(&mut k, 2, 9);
    assert_eq!(k.clusters.len(), 2);
}

#[test]
fn labels_valid_after_fit() {
    let mut k = engine(500, Initializer::PlusPlus);
    k.fit();
    assert_eq!(k.labels.len(), 500);
    for l in &k.labels {
        assert!(k.clusters.iter().any(|c| c.index == *l));
    }
}

#[test]
fn weights_sum_to_one_after_fit() {
    let mut k = engine(500, Initializer::Simple);
    k.fit();
    let total: usize = k.clusters.iter().map(|c| c.size).sum();
    assert_eq!(total, 500);
    let weight: f64 = k.clusters.iter().map(|c| c.size as f64 / 500.0).sum();
    assert!((weight - 1.0).abs() < 1e-4);
}

#[test]
fn fit_is_deterministic() {
    let mut a = engine(400, Initializer::PlusPlus);
    let mut b = engine(400, Initializer::PlusPlus);
    assert_eq!(a.clusters, b.clusters);
    a.fit();
    b.fit();
    assert_eq!(a.clusters, b.clusters);
    assert_eq!(a.labels, b.labels);
}

#[test]
fn fit_halts_and_can_run_again() {
    let dataset = vec![rgb(0, 0, 0), rgb(255, 255, 255), rgb(0, 0, 0), rgb(255, 255, 255)];
    let mut k = Kmeans::init(dataset, 4, Initializer::Simple, DistanceMetric::Manhattan, 5).unwrap();
    k.fit();
    k.fit();
    assert_eq!(k.clusters.len(), 4);
    let total: usize = k.clusters.iter().map(|c| c.size).sum();
    assert_eq!(total, 4);
}

#[test]
fn clusters_sorted_by_weight_after_fit() {
    let mut k = engine(600, Initializer::PlusPlus);
    k.fit();
    for w in k.clusters.windows(2) {
        assert!(w[0].size >= w[1].size);
    }
    let mut indices: Vec<u8> = k.clusters.iter().map(|c| c.index).collect();
    indices.sort();
    assert_eq!(indices, vec![0, 1, 2, 3, 4]);
}

#[test]
fn empty_cluster_keeps_its_point() {
    let dataset = vec![rgb(0, 0, 0), rgb(2, 2, 2), rgb(4, 4, 4)];
    let mut k = Kmeans::init(dataset, 2, Initializer::Simple, DistanceMetric::Squared, 3).unwrap();
    k.clusters = vec![cluster(rgb(255, 255, 255), 0), cluster(rgb(1, 1, 1), 1)];
    k.fit();
    assert_eq!(k.labels, vec![1, 1, 1]);
    assert_eq!(k.clusters[0], Cluster { point: rgb(2, 2, 2), index: 1, size: 3 });
    assert_eq!(k.clusters[1], Cluster { point: rgb(255, 255, 255), index: 0, size: 0 });
}
