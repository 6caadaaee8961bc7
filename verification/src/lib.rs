//! CardMind: turning AI conversations into connected knowledge cards.

pub mod backups;
pub mod codec;
pub mod confidence;
pub mod export;
pub mod extractor;
pub mod ids;
pub mod laws;
pub mod merge;
pub mod models;
pub mod normalize;
pub mod openai;
pub mod repository;
pub mod sample;
pub mod search;
pub mod tables;
pub mod text;
