//! Extraction of a representative color palette from raster pixel data.
//!
//! Pixels are clustered in RGB space with a k-means loop; the final
//! centroids, together with each cluster's share of the pixel
//! population, form the palette. Independent utilities order colors by
//! luminance, measure pairwise color distance, and drop near-duplicate
//! colors from a palette.
//!
//! All quantities are exact integers. Color distances are squared
//! Euclidean distances and luminance weights are scaled channel sums,
//! so nearest-centroid choices, duplicate thresholds and luminance
//! order agree exactly with their real-valued counterparts. Population
//! shares are hundredths of a percent, truncating. Centroid movement
//! rounds each centroid's Euclidean step down to a whole unit before
//! comparing the total against the convergence threshold.

pub mod cluster;
pub mod color;
pub mod extract;
pub mod palette;
pub mod random;
pub mod stats;

pub use color::Color;
pub use color::color_distance_rgb;
pub use cluster::ClusteringResult;
pub use stats::PaletteResult;
pub use extract::PaletteError;
pub use extract::PaletteExtractor;
pub use palette::remove_similar_colors;
pub use palette::sort_colors_by_luminance;
