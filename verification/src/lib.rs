use vstd::prelude::*;

pub mod text;
pub mod clock;
pub mod quality;
pub mod key_points;
pub mod metrics;
pub mod llm;
pub mod notes;
pub mod config;
pub mod scene;
pub mod asr;
pub mod sorted_map;
pub mod token;
pub mod nls;
pub mod pool;
pub mod models;
pub mod punct;
pub mod cli;
pub mod knowledge;
pub mod webhook;
pub mod transcript;
pub mod wav;
pub mod corpus;
pub mod media;
pub mod trim;
pub mod settings;

verus! {
} // verus!
