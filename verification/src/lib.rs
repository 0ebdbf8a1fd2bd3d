//! The logic of a command line client for an Immich photo library: searching by
//! meaning, words, time and place; looking up one photo; answering questions from
//! descriptions; and cleaning up duplicates. Servers, language models and the file
//! system stay outside: they are reached through the traits of [`client`] and
//! [`llm`], or hand in plain values.
pub mod client;
pub mod commands;
pub mod config;
pub mod description_search;
pub mod error;
pub mod fusion;
pub mod ids;
pub mod json;
pub mod keywords;
pub mod listing;
pub mod llm;
pub mod models;
pub mod moments;
pub mod naturals;
pub mod path_map;
pub mod places;
pub mod sizes;
pub mod table;
pub mod text;
