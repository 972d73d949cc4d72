pub mod engine;
pub mod extract;
pub mod gold_set;
pub mod identity;
pub mod jaro;
pub mod levenshtein;
pub mod loader;
pub mod models;
pub mod normalize;
pub mod phonetic;
pub mod score;
pub mod text;
