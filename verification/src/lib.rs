//! A daily word-association puzzle library: letter/word bitmask encoding, a
//! seeded puzzle generator over an in-memory word corpus, a timezone-keyed
//! puzzle cache, and the word validator/scorer that mirrors the generator's
//! matching and scoring rules.

pub mod cache;
pub mod generator;
pub mod letters;
pub mod puzzle;
pub mod rng;
pub mod search;
pub mod store;
pub mod validate;
pub mod words;
pub mod words_list;
