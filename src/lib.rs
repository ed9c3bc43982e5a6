//! Colour-palette extraction by k-means clustering, with k-means++ seeding.
mod convergence;
mod initialize;
mod kmeans;
mod order;
mod point;
mod rgb;

pub use crate::convergence::{convergence_feature, feature_dropped, FEATURE_ONE, MAX_ITERATIONS};
pub use crate::initialize::{init_plus_plus, init_simple, select_weighted};
pub use crate::kmeans::{
    lemma_empty_cluster_kept, lemma_fit_deterministic, lemma_weights_sum_to_one,
    nearest_distances, Initializer, Kmeans, KmeansError, DEFAULT_SEED,
};
pub use crate::point::{
    lemma_nearest_position, Cluster, DistanceMetric, DistanceMetrics, KmeansPoint,
};
pub use crate::rgb::Rgb;
