//! A multi-dimensional weighted resemblance engine.
//!
//! Candidates are ranked against a query by combining several independent
//! similarity measurements ("dimensions") into one aggregate score, gating
//! the result against a viability floor, and returning ordered matches.
//! Scores are exact fixed-point values in millionths (`score::SCALE` is
//! 1.0), so every aggregate is a deterministic integer computation.

pub mod assessor;
pub mod capability;
pub mod chars;
pub mod collections;
pub mod cosine;
pub mod custom;
pub mod ensemble;
pub mod exact;
pub mod fixed;
pub mod fuzzy;
pub mod jaccard;
pub mod laws;
pub mod lexical;
pub mod metric;
pub mod ngram;
pub mod numeric;
pub mod phonetic;
pub mod presets;
pub mod ranking;
pub mod scheme;
pub mod score;
pub mod structural;

pub use assessor::{Assessor, Dimension, DimensionReport, Profile};
pub use capability::Capability;
pub use cosine::CosineScorer;
pub use custom::Custom;
pub use ensemble::{Union, UnionEntry};
pub use exact::{CaseInsensitiveScorer, Exact, ExactMatchScorer, Relaxed};
pub use fuzzy::{EditDistanceScorer, Levenshtein, SimpleLevenshteinMetric,
    damerau_levenshtein_distance};
pub use jaccard::JaccardMetric;
pub use lexical::{AcronymScorer, TokenSimilarityScorer};
pub use metric::{CompositeMetric, CompositeStrategy, Metric};
pub use ngram::{NGramScorer, Sequential};
pub use numeric::{NumericSimilarity, PercentageProximityScorer};
pub use phonetic::{PhoneticMode, PhoneticScorer, SoundexScorer, SoundexSimilarity};
pub use presets::{Aligner, FullMatcher, MatcherPresets};
pub use ranking::Outcome;
pub use scheme::Scheme;
pub use score::{MatchType, Measurement, MetricFailure, Resemblance, DEFAULT_FLOOR, PERFECT_GATE,
    SCALE, THRESHOLD_GATE, WEIGHT_ONE};
pub use structural::{Contains, PrefixScorer, SubstringScorer, SuffixScorer};
